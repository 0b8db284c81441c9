use sitefix::fossick::parser::{DomParser, DomParserResult};
use sitefix::options::{default_false, default_glob, default_root_selector};
use sitefix::{FixOptions, Globals, SitefixInboundConfig, SitefixIssue};

fn options_with_root(root_selector: &str) -> FixOptions {
    let config = SitefixInboundConfig {
        source: "not_important".to_string(),
        glob: default_glob(),
        root_selector: root_selector.to_string(),
        verbose: default_false(),
    };
    FixOptions::load(config, ".".to_string(), "0.0.0").unwrap()
}

fn parse_with(globals: &Globals, input: Vec<&'static str>) -> DomParserResult {
    let config = SitefixInboundConfig {
        source: "not_important".to_string(),
        glob: default_glob(),
        root_selector: default_root_selector(),
        verbose: default_false(),
    };
    let options = FixOptions::load(config, ".".to_string(), "0.0.0").unwrap();
    let mut rewriter = DomParser::new(globals, &options).unwrap();
    for line in input {
        let _ = rewriter.write(line.as_bytes());
    }
    rewriter.wrap()
}

fn test_raw_parse(input: Vec<&'static str>) -> DomParserResult {
    let g = Globals::default();
    parse_with(&g, input)
}

fn test_parse(mut input: Vec<&'static str>) -> DomParserResult {
    input.insert(0, "<html><body>");
    input.push("</body></html>");
    test_raw_parse(input)
}

fn site(urls: Vec<&str>) -> Globals {
    Globals { urls: urls.into_iter().map(String::from).collect(), paths: vec![] }
}

fn lines(result: &DomParserResult) -> Vec<String> {
    result.issues.iter().map(|issue| issue.to_string()).collect()
}

#[test]
fn ignored_elements() {
    let data = test_parse(vec![
        "<div data-sitefix-ignore>",
        "<a href='/nowhere'>This should not return an error</a>",
        "</div>",
    ]);

    assert!(data.issues.is_empty());
}

#[test]
fn an_ignored_dead_link_in_one_chunk() {
    let data = test_raw_parse(vec![
        "<html><body><div data-sitefix-ignore><a href=\"/nowhere\">x</a></div></body></html>",
    ]);
    assert!(data.issues.is_empty());
    assert!(data.has_html_element);
}

#[test]
fn the_same_link_is_dead_without_the_ignore_mark() {
    let data = test_parse(vec!["<div>", "<a href='/nowhere'>dead</a>", "</div>"]);
    assert_eq!(
        lines(&data),
        vec!["Dead Link: <a> links to /nowhere, but that page does not exist".to_string()]
    );
}

#[test]
fn anchor_without_href_is_a_missing_link() {
    let data = test_raw_parse(vec!["<html><body><a>no href</a></body></html>"]);
    assert_eq!(data.issues.len(), 1);
    match &data.issues[0] {
        SitefixIssue::MissingLink(msg) => assert_eq!(msg, "<a> has no href"),
        SitefixIssue::DeadLink(msg) => panic!("a dead link was reported: {msg}"),
    }
    assert_eq!(data.issues[0].to_string(), "Missing Link: <a> has no href");
}

#[test]
fn ignoring_is_inherited_at_any_depth() {
    let data = test_parse(vec![
        "<a href='/before'>kept</a>",
        "<section data-sitefix-ignore>",
        "<div><p><span><a href='/deep'>deep</a><a>none</a></span></p></div>",
        "<a href='/shallow'>shallow</a>",
        "</section>",
        "<a href='/after'>kept</a>",
    ]);
    assert_eq!(
        lines(&data),
        vec![
            "Dead Link: <a> links to /before, but that page does not exist".to_string(),
            "Dead Link: <a> links to /after, but that page does not exist".to_string(),
        ]
    );
}

#[test]
fn an_ignored_anchor_silences_itself() {
    let data = test_parse(vec!["<a data-sitefix-ignore href='/nowhere'>x</a>", "<a data-sitefix-ignore>y</a>"]);
    assert!(data.issues.is_empty());
}

#[test]
fn a_child_cannot_undo_the_ignore_mark() {
    let data = test_parse(vec![
        "<div data-sitefix-ignore><div data-sitefix-ignore='false'><a href='/nowhere'>x</a></div></div>",
    ]);
    assert!(data.issues.is_empty());
}

#[test]
fn missing_end_tags_lose_nothing() {
    let whole = test_raw_parse(vec![
        "<html><body><div><a href='/one'>1</a><p><a>2</a></p></div></body></html>",
    ]);
    let expected = vec![
        "Dead Link: <a> links to /one, but that page does not exist".to_string(),
        "Missing Link: <a> has no href".to_string(),
    ];
    assert_eq!(lines(&whole), expected);
    for cut in [
        "<html><body><div><a href='/one'>1</a><p><a>2</a></p></div></body>",
        "<html><body><div><a href='/one'>1</a><p><a>2</a></p></div>",
        "<html><body><div><a href='/one'>1</a><p><a>2</a></p>",
        "<html><body><div><a href='/one'>1</a><p><a>2</a>",
    ] {
        let truncated = test_raw_parse(vec![cut]);
        assert_eq!(lines(&truncated), expected);
        assert!(truncated.has_html_element);
    }
}

#[test]
fn an_unclosed_ignored_element_stays_silent() {
    let data = test_raw_parse(vec!["<html><body><div data-sitefix-ignore><p><a href='/nowhere'>x</a>"]);
    assert!(data.issues.is_empty());
}

#[test]
fn fragment_only_links_are_never_flagged() {
    let data = test_parse(vec!["<a href=\"#section\">here</a>", "<a href='%23top'>top</a>"]);
    assert!(data.issues.is_empty());
}

#[test]
fn external_links_are_never_flagged() {
    let data = test_parse(vec![
        "<a href=\"https://example.com/x\">a</a>",
        "<a href=\"//example.com/x\">b</a>",
        "<a href=\"http://example.com/x\">c</a>",
    ]);
    assert!(data.issues.is_empty());
}

#[test]
fn any_scheme_before_two_slashes_leaves_the_site() {
    let data = test_raw_parse(vec![
        "<html><body><a href=\"ftp://example.com/x\">x</a></body></html>",
    ]);
    assert!(data.issues.is_empty());
    let data = test_parse(vec![
        "<a href=\"git+ssh://example.com/x\">a</a>",
        "<a href=\"HTTPS://example.com/x\">b</a>",
        "<a href=\"ws://example.com/x\">c</a>",
    ]);
    assert!(data.issues.is_empty());
}

#[test]
fn a_target_without_two_slashes_is_looked_up_as_a_page() {
    let data = test_parse(vec!["<a href=\"mailto:someone@example.com\">a</a>"]);
    assert_eq!(
        lines(&data),
        vec!["Dead Link: <a> links to mailto:someone@example.com, but that page does not exist"
            .to_string()]
    );
}

#[test]
fn dead_link_resolution() {
    let g = site(vec!["/", "/about/"]);
    let missing = parse_with(&g, vec!["<html><body><a href=\"/missing/\">m</a></body></html>"]);
    assert_eq!(
        lines(&missing),
        vec!["Dead Link: <a> links to /missing/, but that page does not exist".to_string()]
    );
    assert!(matches!(missing.issues[0], SitefixIssue::DeadLink(_)));
    let known = parse_with(&g, vec!["<html><body><a href=\"/about/\">a</a></body></html>"]);
    assert!(known.issues.is_empty());
    let with_hash = parse_with(&g, vec!["<html><body><a href=\"/about/#team\">t</a></body></html>"]);
    assert!(with_hash.issues.is_empty());
    let root = parse_with(&g, vec!["<html><body><a href=\"/\">home</a></body></html>"]);
    assert!(root.issues.is_empty());
}

#[test]
fn the_message_keeps_the_fragment_of_a_dead_link() {
    let g = site(vec!["/about/"]);
    let data = parse_with(&g, vec!["<html><body><a href=\"/team/#lead\">t</a></body></html>"]);
    assert_eq!(
        lines(&data),
        vec!["Dead Link: <a> links to /team/#lead, but that page does not exist".to_string()]
    );
}

#[test]
fn targets_are_percent_decoded_before_lookup() {
    let g = site(vec!["/my page/"]);
    let found = parse_with(&g, vec!["<html><body><a href=\"/my%20page/\">p</a></body></html>"]);
    assert!(found.issues.is_empty());
    let dead = parse_with(&g, vec!["<html><body><a href=\"/your%20page/\">p</a></body></html>"]);
    assert_eq!(
        lines(&dead),
        vec!["Dead Link: <a> links to /your page/, but that page does not exist".to_string()]
    );
}

#[test]
fn root_element_detection() {
    let with_root = test_raw_parse(vec!["<html><body><p>text</p></body></html>"]);
    assert!(with_root.has_html_element);
    let without_root = test_raw_parse(vec!["<body><p>text</p><a>x</a></body>"]);
    assert!(!without_root.has_html_element);
    assert!(without_root.issues.is_empty());
}

#[test]
fn elements_outside_the_root_are_not_examined() {
    let g = Globals::default();
    let options = options_with_root("main");
    let mut parser = DomParser::new(&g, &options).unwrap();
    parser
        .write(b"<html><body><a>outside</a><main><a>inside</a></main><a>after</a></body></html>")
        .unwrap();
    let data = parser.wrap();
    assert_eq!(lines(&data), vec!["Missing Link: <a> has no href".to_string()]);
    assert!(data.has_html_element);
}

#[test]
fn an_invalid_root_selector_is_refused() {
    let g = Globals::default();
    for selector in ["div >", "", "a:hover", "[href"] {
        let options = options_with_root(selector);
        assert!(matches!(
            DomParser::new(&g, &options),
            Err(sitefix::fossick::parser::ParserError::InvalidRootSelector)
        ));
    }
    for selector in ["html", "main", ".content", "#page", "body > main"] {
        let options = options_with_root(selector);
        assert!(DomParser::new(&g, &options).is_ok());
    }
}

#[test]
fn elements_without_an_end_tag_close_at_once() {
    let data = test_parse(vec![
        "<div data-sitefix-ignore><br><img src='x'><hr/></div>",
        "<img data-sitefix-ignore src='y'>",
        "<a href='/nowhere'>still checked</a>",
    ]);
    assert_eq!(
        lines(&data),
        vec!["Dead Link: <a> links to /nowhere, but that page does not exist".to_string()]
    );
}

#[test]
fn a_tag_split_over_chunks_is_read_once() {
    let data = test_raw_parse(vec!["<html><body><a hr", "ef='/no", "where'>x</", "a></body></html>"]);
    assert_eq!(
        lines(&data),
        vec!["Dead Link: <a> links to /nowhere, but that page does not exist".to_string()]
    );
}

#[test]
fn every_cut_of_a_document_gives_the_same_result() {
    let document = "<html><body><div data-sitefix-ignore><a href='/x'>x</a></div>\
        <p><a href='/one#top'>1</a><img src='i.png'><a>2</a></p><a href=\"//out\">3</a></body></html>";
    let g = Globals::default();
    let options = options_with_root("html");
    let mut whole = DomParser::new(&g, &options).unwrap();
    whole.write(document.as_bytes()).unwrap();
    let whole = whole.wrap();
    assert_eq!(
        lines(&whole),
        vec![
            "Dead Link: <a> links to /one#top, but that page does not exist".to_string(),
            "Missing Link: <a> has no href".to_string(),
        ]
    );
    for cut in 0..=document.len() {
        let mut parser = DomParser::new(&g, &options).unwrap();
        parser.write(&document.as_bytes()[..cut]).unwrap();
        parser.write(&document.as_bytes()[cut..]).unwrap();
        let found = parser.wrap();
        assert_eq!(lines(&found), lines(&whole), "cut at {cut}");
        assert_eq!(found.has_html_element, whole.has_html_element);
    }
    let mut parser = DomParser::new(&g, &options).unwrap();
    for byte in document.as_bytes() {
        parser.write(&[*byte]).unwrap();
    }
    assert_eq!(lines(&parser.wrap()), lines(&whole));
}

#[test]
fn issues_come_in_document_order() {
    let data = test_parse(vec![
        "<a href='/1'>1</a><div><a href='/2'>2</a><p><a href='/3'>3</a></p><a href='/4'>4</a></div><a href='/5'>5</a>",
    ]);
    let expected: Vec<String> = (1..=5)
        .map(|n| format!("Dead Link: <a> links to /{n}, but that page does not exist"))
        .collect();
    assert_eq!(lines(&data), expected);
}

#[test]
fn an_undecodable_target_is_reported_and_the_parser_goes_on() {
    let g = Globals::default();
    let options = options_with_root("html");
    let mut parser = DomParser::new(&g, &options).unwrap();
    let taken = parser.write(b"<html><body><div><a href='/%ff'>bad</a><a>none</a>");
    assert!(matches!(
        taken,
        Err(sitefix::fossick::parser::ParseError::Link(
            sitefix::fossick::links::LinkError::UndecodableTarget
        ))
    ));
    assert!(parser.write(b"<a href='/nowhere'>dead</a></div></body></html>").is_ok());
    let data = parser.wrap();
    assert_eq!(
        lines(&data),
        vec![
            "Missing Link: <a> has no href".to_string(),
            "Dead Link: <a> links to /nowhere, but that page does not exist".to_string(),
        ]
    );
}
