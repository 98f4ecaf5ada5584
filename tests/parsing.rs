use sitegen::errors::Error;
use sitegen::parsing::{find_next_template, find_template, parse_template, Template, TemplateInstance};

#[test]
fn find_next_general() {
    assert!(matches!(
        find_next_template("some content {{extends foo}} more content"),
        Ok(Some(TemplateInstance {
            start_pos: 13,
            end_pos: 27,
            template: Template::Extends { ref name }
        })) if name == "foo"
    ));

    assert!(matches!(
        find_next_template("some content {{ extends foo }} more content"),
        Ok(Some(TemplateInstance {
            start_pos: 13,
            end_pos: 29,
            template: Template::Extends { ref name }
        })) if name == "foo"
    ));

    assert!(matches!(
        find_next_template("some content {{ extends 'foo bar' }} more content"),
        Ok(Some(TemplateInstance {
            start_pos: 13,
            end_pos: 35,
            template: Template::Extends { ref name }
        })) if name == "foo bar"
    ));

    assert!(matches!(
        find_next_template("some content more content"),
        Ok(None)
    ));

    assert!(matches!(
        find_next_template("some content {{ extends 'foo bar' more content"),
        Err(Error::UnclosedTemplate)
    ));

    assert!(matches!(
        find_next_template("some content {{}} more content"),
        Err(Error::Empty)
    ));

    assert!(matches!(
        find_next_template("some content {{  }} more content"),
        Err(Error::Empty)
    ));
}

#[test]
fn parsing_general() {
    assert!(matches!(
        find_template("a {{ pagename }} b {{ pagecontent }} c", "pagecontent"),
        Ok(Some(TemplateInstance {
            start_pos: 19,
            end_pos: 35,
            template: Template::PageContent
        }))
    ));
}

#[test]
fn general() {
    assert!(matches!(
        parse_template("extends foo"),
        Ok(Template::Extends { ref name }) if name == "foo"
    ));
    assert!(matches!(
        parse_template(" \textends   foo "),
        Ok(Template::Extends { ref name }) if name == "foo"
    ));
    assert!(matches!(
        parse_template(r#"extends "foo bar""#),
        Ok(Template::Extends { ref name }) if name == "foo bar"
    ));
    assert!(matches!(
        parse_template(r#""extends"  'foo "bar"'"#),
        Ok(Template::Extends { ref name }) if name == r#"foo "bar""#
    ));
}

#[test]
fn general_negative() {
    assert!(matches!(parse_template(""), Err(Error::Empty)));
    assert!(matches!(parse_template(" \t\n "), Err(Error::Empty)));
    assert!(matches!(
        parse_template("extends 'foo bar"),
        Err(Error::UnclosedQuote)
    ));
    assert!(matches!(
        parse_template("extends"),
        Err(Error::MissingArgument("name"))
    ));
    assert!(matches!(
        parse_template("thisdoesnotexist"),
        Err(Error::UnknownTemplate(v)) if &v == "thisdoesnotexist"
    ));
}

#[test]
fn extends() {
    assert!(matches!(
        parse_template("extends foo"),
        Ok(Template::Extends { ref name }) if name == "foo"
    ));

    assert!(matches!(
        parse_template("extends"),
        Err(Error::MissingArgument("name"))
    ));
}

#[test]
fn use_() {
    assert!(matches!(
        parse_template("use foo"),
        Ok(Template::Use { ref name }) if name == "foo"
    ));

    assert!(matches!(
        parse_template("use"),
        Err(Error::MissingArgument("name"))
    ));
}

#[test]
fn pagename() {
    assert!(matches!(parse_template("pagename"), Ok(Template::PageName)));
}

#[test]
fn navitems() {
    assert!(matches!(parse_template("navitems"), Ok(Template::NavItems)));
}

#[test]
fn currentdate() {
    assert!(matches!(
        parse_template("currentdate"),
        Ok(Template::CurrentDate { format: None })
    ));

    assert!(matches!(
        parse_template("currentdate 'some format'"),
        Ok(Template::CurrentDate { format: Some(f) }) if &f == "some format"
    ));
}

#[test]
fn exec() {
    let res = parse_template("exec ls");
    match res.unwrap() {
        Template::Exec { command, args } => {
            assert_eq!(command, "ls");
            assert!(args.is_empty());
        }
        _ => panic!("invliad template"),
    }

    let res = parse_template(r#"exec do "some stuff"   'with "quotes"' yeah"#);
    match res.unwrap() {
        Template::Exec { command, args } => {
            assert_eq!(command, "do");
            assert_eq!(args, vec!["some stuff", r#"with "quotes""#, "yeah"]);
        }
        _ => panic!("invliad template"),
    }

    assert!(matches!(
        parse_template(" exec  "),
        Err(Error::MissingArgument("command"))
    ));
}

#[test]
fn template_ids() {
    assert_eq!(parse_template("extends a").unwrap().id(), "extends");
    assert_eq!(parse_template("use a").unwrap().id(), "use");
    assert_eq!(parse_template("pagename").unwrap().id(), "pagename");
    assert_eq!(parse_template("navitems").unwrap().id(), "navitems");
    assert_eq!(parse_template("currentdate").unwrap().id(), "currentdate");
    assert_eq!(parse_template("exec ls").unwrap().id(), "exec");
    assert_eq!(parse_template("pagecontent").unwrap().id(), "pagecontent");
}

#[test]
fn quotes_split_and_keep_words() {
    // A quote ends the word before it and starts a new one; an empty quoted word
    // is kept.
    match parse_template("exec a'b c'd \"\"").unwrap() {
        Template::Exec { command, args } => {
            assert_eq!(command, "a");
            assert_eq!(args, vec!["b c", "d", ""]);
        }
        _ => panic!("expected exec"),
    }
    match parse_template("exec\tx\r\ny").unwrap() {
        Template::Exec { command, args } => {
            assert_eq!(command, "x");
            assert_eq!(args, vec!["y"]);
        }
        _ => panic!("expected exec"),
    }
    // Extra words after a directive that takes none are ignored.
    assert!(matches!(parse_template("pagename extra words"), Ok(Template::PageName)));
    // Directive names are case-sensitive.
    assert!(matches!(
        parse_template("PageName"),
        Err(Error::UnknownTemplate(v)) if &v == "PageName"
    ));
}

#[test]
fn find_template_skips_other_kinds() {
    assert!(matches!(
        find_template("{{ use a }} x {{ use b }}", "pagecontent"),
        Ok(None)
    ));
    assert!(matches!(
        find_template("{{ use a }} x {{ bogus }}", "pagecontent"),
        Err(Error::UnknownTemplate(v)) if &v == "bogus"
    ));
    assert!(matches!(
        find_template("{{ pagename }}{{ use b }}", "use"),
        Ok(Some(TemplateInstance { start_pos: 14, end_pos: 24, template: Template::Use { ref name } })) if name == "b"
    ));
}
