use sitefix::fossick::links::{
    dead_link_text, link_bearing, missing_link_text, resolve, site_has_page, starts_fragment,
    target_page, ExternalPattern, LinkError,
};
use sitefix::SitefixIssue;

fn classify(
    tag_name: &str,
    href: Option<&str>,
    urls: &Vec<String>,
) -> Result<Option<SitefixIssue>, LinkError> {
    sitefix::fossick::links::classify(tag_name, href, urls, &ExternalPattern::new())
}

fn leaves_site(target: &str) -> bool {
    sitefix::fossick::links::leaves_site(target, &ExternalPattern::new())
}

fn pages(urls: &[&str]) -> Vec<String> {
    urls.iter().map(|url| url.to_string()).collect()
}

fn dead(issue: Option<SitefixIssue>) -> Option<String> {
    match issue {
        Some(SitefixIssue::DeadLink(msg)) => Some(msg),
        Some(SitefixIssue::MissingLink(msg)) => panic!("a missing link was reported: {msg}"),
        None => None,
    }
}

#[test]
fn only_anchors_bear_links() {
    assert!(link_bearing("a"));
    assert!(!link_bearing("A"));
    assert!(!link_bearing("area"));
    assert!(!link_bearing("link"));
    assert!(!link_bearing(""));
    let urls = pages(&[]);
    assert!(matches!(classify("div", None, &urls), Ok(None)));
    assert!(matches!(classify("link", Some("/nowhere"), &urls), Ok(None)));
    assert!(matches!(classify("img", Some("%ff"), &urls), Ok(None)));
}

#[test]
fn an_anchor_without_target_is_exactly_one_missing_link() {
    for urls in [pages(&[]), pages(&["/", "/about/"])] {
        match classify("a", None, &urls) {
            Ok(Some(SitefixIssue::MissingLink(msg))) => assert_eq!(msg, "<a> has no href"),
            other => panic!("unexpected classification: {other:?}"),
        }
    }
}

#[test]
fn message_texts() {
    assert_eq!(missing_link_text("a"), "<a> has no href");
    assert_eq!(
        dead_link_text("a", "/team/#lead"),
        "<a> links to /team/#lead, but that page does not exist"
    );
    assert_eq!(
        SitefixIssue::DeadLink(dead_link_text("a", "/x")).to_string(),
        "Dead Link: <a> links to /x, but that page does not exist"
    );
    assert_eq!(
        SitefixIssue::MissingLink(missing_link_text("a")).to_string(),
        "Missing Link: <a> has no href"
    );
}

#[test]
fn fragments_are_recognised_by_their_first_character() {
    assert!(starts_fragment("#section"));
    assert!(starts_fragment("#"));
    assert!(!starts_fragment(""));
    assert!(!starts_fragment("/page#section"));
    let urls = pages(&[]);
    assert!(matches!(classify("a", Some("#section"), &urls), Ok(None)));
    assert!(matches!(classify("a", Some("#"), &urls), Ok(None)));
    assert!(matches!(classify("a", Some("%23encoded"), &urls), Ok(None)));
}

#[test]
fn links_out_of_the_site_match_the_pattern() {
    assert!(leaves_site("https://example.com/x"));
    assert!(leaves_site("http://example.com/x"));
    assert!(leaves_site("//example.com/x"));
    assert!(!leaves_site("/example.com/x"));
    assert!(leaves_site("ftp://example.com/x"));
    assert!(leaves_site("git+ssh://example.com/x"));
    assert!(leaves_site("x-my.scheme://example.com/x"));
    assert!(leaves_site("HTTPS://EXAMPLE.COM"));
    assert!(!leaves_site("1http://example.com/x"));
    assert!(!leaves_site("a:b://example.com/x"));
    assert!(!leaves_site("://example.com/x"));
    assert!(!leaves_site("mailto:someone@example.com"));
    assert!(leaves_site("//"));
    assert!(leaves_site("a://"));
    assert!(leaves_site("Z9+.-://x"));
    assert!(leaves_site("http:///x"));
    assert!(!leaves_site("/"));
    assert!(!leaves_site(":"));
    assert!(!leaves_site("a:/"));
    assert!(!leaves_site("a_b://x"));
    assert!(!leaves_site("\u{e9}://x"));
    assert!(!leaves_site("a\u{e9}://x"));
    assert!(!leaves_site("+a://x"));
    assert!(!leaves_site("a//x"));
    assert!(!leaves_site("a:b//x"));
    assert!(!leaves_site("x //example.com"));
    assert!(!leaves_site("example.com//x"));
    assert!(!leaves_site("https:/example.com"));
    assert!(!leaves_site(" https://example.com"));
    assert!(!leaves_site(""));
    let urls = pages(&[]);
    assert!(matches!(classify("a", Some("https://example.com/x"), &urls), Ok(None)));
    assert!(matches!(classify("a", Some("//example.com/x"), &urls), Ok(None)));
    assert!(matches!(classify("a", Some("ftp://example.com/x"), &urls), Ok(None)));
}

#[test]
fn one_compiled_pattern_serves_every_link() {
    let pattern = ExternalPattern::new();
    let urls = pages(&["/about/"]);
    for _ in 0..3 {
        assert!(pattern.matches("https://example.com/x"));
        assert!(!pattern.matches("/about/"));
        assert!(matches!(
            sitefix::fossick::links::classify("a", Some("//example.com"), &urls, &pattern),
            Ok(None)
        ));
        assert!(matches!(
            sitefix::fossick::links::classify("a", Some("/nowhere"), &urls, &pattern),
            Ok(Some(SitefixIssue::DeadLink(_)))
        ));
    }
}

#[test]
fn the_page_is_the_target_before_its_first_hash() {
    assert_eq!(target_page("/about/#team"), "/about/");
    assert_eq!(target_page("/about/"), "/about/");
    assert_eq!(target_page("/a#b#c"), "/a");
    assert_eq!(target_page("#only"), "");
    assert_eq!(target_page(""), "");
    assert_eq!(target_page("/caf\u{e9}/#\u{e9}t\u{e9}"), "/caf\u{e9}/");
}

#[test]
fn pages_are_found_by_their_whole_text() {
    let urls = pages(&["/", "/about/"]);
    assert!(site_has_page(&urls, &"/".to_string()));
    assert!(site_has_page(&urls, &"/about/".to_string()));
    assert!(!site_has_page(&urls, &"/about".to_string()));
    assert!(!site_has_page(&urls, &"".to_string()));
    assert!(!site_has_page(&pages(&[]), &"/".to_string()));
}

#[test]
fn resolving_against_the_site() {
    let urls = pages(&["/", "/about/"]);
    assert_eq!(
        dead(resolve("a", "/missing/", false, &urls)),
        Some("<a> links to /missing/, but that page does not exist".to_string())
    );
    assert_eq!(dead(resolve("a", "/about/", false, &urls)), None);
    assert_eq!(dead(resolve("a", "/about/#team", false, &urls)), None);
    assert_eq!(dead(resolve("a", "/missing/", true, &urls)), None);
    assert_eq!(dead(resolve("a", "#top", false, &urls)), None);
    assert_eq!(
        dead(resolve("a", "/about#team", false, &urls)),
        Some("<a> links to /about#team, but that page does not exist".to_string())
    );
    assert_eq!(
        dead(resolve("a", "", false, &urls)),
        Some("<a> links to , but that page does not exist".to_string())
    );
}

#[test]
fn classification_against_a_small_site() {
    let urls = pages(&["/", "/about/"]);
    match classify("a", Some("/missing/"), &urls) {
        Ok(Some(SitefixIssue::DeadLink(msg))) => {
            assert_eq!(msg, "<a> links to /missing/, but that page does not exist")
        }
        other => panic!("unexpected classification: {other:?}"),
    }
    assert!(matches!(classify("a", Some("/about/"), &urls), Ok(None)));
    assert!(matches!(classify("a", Some("/about/#team"), &urls), Ok(None)));
}

#[test]
fn targets_are_decoded_first() {
    let urls = pages(&["/my page/", "/100%/"]);
    assert!(matches!(classify("a", Some("/my%20page/"), &urls), Ok(None)));
    assert!(matches!(classify("a", Some("/my%20page/%23top"), &urls), Ok(None)));
    assert!(matches!(classify("a", Some("/100%/"), &urls), Ok(None)));
    match classify("a", Some("/my+page/"), &urls) {
        Ok(Some(SitefixIssue::DeadLink(msg))) => {
            assert_eq!(msg, "<a> links to /my+page/, but that page does not exist")
        }
        other => panic!("unexpected classification: {other:?}"),
    }
    assert!(matches!(classify("a", Some("https%3A//example.com"), &urls), Ok(None)));
}

#[test]
fn a_target_that_does_not_decode_is_an_error() {
    let urls = pages(&["/"]);
    assert!(matches!(classify("a", Some("/%ff"), &urls), Err(LinkError::UndecodableTarget)));
    assert!(matches!(classify("a", Some("%c3%28"), &urls), Err(LinkError::UndecodableTarget)));
    assert!(matches!(classify("a", Some("/%c3%a9"), &pages(&["/\u{e9}"])), Ok(None)));
}
