//! The link classifier: decides, for one element and the set of pages of the
//! site, whether the element's link is missing, dead, or fine.

use vstd::prelude::*;

use crate::issues::{optional_issue_view, IssueView, SitefixIssue};

verus! {

/// Why the target of a link could not be evaluated.
#[derive(Debug)]
pub enum LinkError {
    /// The percent-encoding of the target does not decode to UTF-8 text.
    UndecodableTarget,
}

/// The error of a decoding that does not end in UTF-8 text.
#[verifier::external_type_specification]
#[verifier::external_body]
pub struct ExFromUtf8Error(std::string::FromUtf8Error);

/// The `regex` crate's reason for refusing a pattern.
#[verifier::external_type_specification]
#[verifier::external_body]
pub struct ExRegexError(regex::Error);

/// What `urlencoding::decode` makes of a percent-encoded text: the decoded
/// text, or `None` where the decoded bytes are not UTF-8.
pub uninterp spec fn percent_decoded(encoded: Seq<char>) -> Option<Seq<char>>;

/// Calls `urlencoding::decode`. The result is the decoding named by
/// [`percent_decoded`]; a text without any `%` is handed back as it is, which
/// is the first thing that the decoder checks.
#[verifier::external_body]
fn percent_decode(encoded: &str) -> (decoded: Result<String, std::string::FromUtf8Error>)
    ensures
        decoded matches Ok(text) ==> percent_decoded(encoded@) == Some(text@),
        decoded is Err ==> percent_decoded(encoded@) is None,
        decoded is Ok || encoded@.contains('%'),
        decoded matches Ok(text) ==> encoded@.contains('%') || text@ == encoded@,
{
    urlencoding::decode(encoded).map(std::borrow::Cow::into_owned)
}

/// A regular expression that the `regex` crate has compiled.
#[verifier::external_type_specification]
#[verifier::external_body]
pub struct ExRegex(regex::Regex);

/// The pattern that a compiled regular expression was made from.
pub uninterp spec fn regex_pattern(compiled: regex::Regex) -> Seq<char>;

/// Compiles a pattern with `regex::Regex::new`. What comes back was made
/// from that pattern, and the pattern of links that leave the site is one
/// that the crate accepts.
#[verifier::external_body]
fn regex_compile(pattern: &str) -> (compiled: Result<regex::Regex, regex::Error>)
    ensures
        compiled matches Ok(made) ==> regex_pattern(made) == pattern@,
        compiled is Ok || pattern@ != external_url_pattern(),
{
    regex::Regex::new(pattern)
}

/// Searches `text` with `Regex::is_match`, for the pattern of links that
/// leave the site. That pattern matches exactly the texts that begin with
/// `//` or with a letter, any letters, digits, `+`, `.` and `-`, and `://`.
#[verifier::external_body]
fn regex_is_match(compiled: &regex::Regex, text: &str) -> (matched: bool)
    requires
        regex_pattern(*compiled) == external_url_pattern(),
    ensures
        matched == is_external(text@),
{
    compiled.is_match(text)
}

/// The compiled pattern of links that leave the site. It is made once and
/// used for every link.
pub struct ExternalPattern {
    compiled: regex::Regex,
}

impl ExternalPattern {
    /// The expression was compiled from [`external_url_pattern`].
    pub closed spec fn wf(&self) -> bool {
        regex_pattern(self.compiled) == external_url_pattern()
    }

    /// Compiles the pattern of links that leave the site.
    pub fn new() -> (pattern: Self)
        ensures
            pattern.wf(),
    {
        match regex_compile("^([A-Za-z][A-Za-z0-9+.-]*:)?//") {
            Ok(compiled) => ExternalPattern { compiled },
            Err(_) => vstd::pervasive::unreached(),
        }
    }

    /// Whether a decoded target leaves the site.
    pub fn matches(&self, text: &str) -> (external: bool)
        requires
            self.wf(),
        ensures
            external == is_external(text@),
    {
        regex_is_match(&self.compiled, text)
    }
}

/// The tags whose target is checked: the anchor only.
pub open spec fn is_link_tag(tag: Seq<char>) -> bool {
    tag == seq!['a']
}

/// The pattern of a link that leaves the site: an optional scheme, which is
/// a letter followed by letters, digits, `+`, `.` or `-` and ends in `:`,
/// followed by `//`.
pub open spec fn external_url_pattern() -> Seq<char> {
    "^([A-Za-z][A-Za-z0-9+.-]*:)?//"@
}

/// The text that an encoded target stands for: the target itself where it
/// holds no `%`, and otherwise what the decoder makes of it, which is
/// nothing where the decoded bytes are not UTF-8.
pub open spec fn decoded_target(encoded: Seq<char>) -> Option<Seq<char>> {
    if encoded.contains('%') {
        percent_decoded(encoded)
    } else {
        Some(encoded)
    }
}

/// Whether a character can begin a scheme: an ASCII letter.
pub open spec fn is_scheme_start(c: char) -> bool {
    ('a' <= c && c <= 'z') || ('A' <= c && c <= 'Z')
}

/// Whether a character can stand in a scheme: an ASCII letter or digit, or
/// one of `+`, `.` and `-`.
pub open spec fn is_scheme_char(c: char) -> bool {
    is_scheme_start(c) || ('0' <= c && c <= '9') || c == '+' || c == '.' || c == '-'
}

/// Whether the first `len` characters of a target are a scheme and a `:`
/// follows them.
pub open spec fn has_scheme(target: Seq<char>, len: int) -> bool {
    &&& 1 <= len < target.len()
    &&& is_scheme_start(target[0])
    &&& forall|i: int| 1 <= i < len ==> is_scheme_char(#[trigger] target[i])
    &&& target[len] == ':'
}

/// Whether two slashes stand at a position of a target.
pub open spec fn slashes_at(target: Seq<char>, at: int) -> bool {
    0 <= at && at + 1 < target.len() && target[at] == '/' && target[at + 1] == '/'
}

/// Whether a decoded target leaves the site: it begins with `//`, or with
/// a scheme and `://`. This is what [`external_url_pattern`] matches.
pub open spec fn is_external(target: Seq<char>) -> bool {
    slashes_at(target, 0) || exists|len: int|
        #[trigger] has_scheme(target, len) && slashes_at(target, len + 1)
}

/// Whether a decoded target only names a place on the page it stands on.
pub open spec fn is_fragment(target: Seq<char>) -> bool {
    target.len() > 0 && target[0] == '#'
}

/// The position of the first `#` of a target, or its length where it holds none.
pub open spec fn fragment_start(target: Seq<char>) -> int
    decreases target.len(),
{
    if target.len() == 0 || target[0] == '#' {
        0
    } else {
        1 + fragment_start(target.drop_first())
    }
}

/// The page that a target names: the target up to its first `#`.
pub open spec fn page_part(target: Seq<char>) -> Seq<char> {
    target.take(fragment_start(target))
}

/// The message of a link-bearing element without a target.
pub open spec fn missing_link_message(tag: Seq<char>) -> Seq<char> {
    "<"@ + tag + "> has no href"@
}

/// The message of a link whose page does not exist.
pub open spec fn dead_link_message(tag: Seq<char>, target: Seq<char>) -> Seq<char> {
    "<"@ + tag + "> links to "@ + target + ", but that page does not exist"@
}

/// The pages of the site, as a set of texts.
pub open spec fn url_set(urls: Seq<String>) -> Set<Seq<char>> {
    Set::new(|url: Seq<char>| exists|i: int| 0 <= i < urls.len() && #[trigger] urls[i]@ == url)
}

/// The issue of a link with a decoded target, once it is known whether the
/// target leaves the site.
pub open spec fn resolved_issue(
    tag: Seq<char>,
    target: Seq<char>,
    external: bool,
    urls: Set<Seq<char>>,
) -> Option<IssueView> {
    if is_fragment(target) || external || urls.contains(page_part(target)) {
        None
    } else {
        Some(IssueView::DeadLink(dead_link_message(tag, target)))
    }
}

/// The issue of one element: none for a tag that bears no link, a missing
/// link where the target attribute is absent, and otherwise what the decoded
/// target resolves to.
pub open spec fn link_issue(tag: Seq<char>, href: Option<Seq<char>>, urls: Set<Seq<char>>) -> Result<
    Option<IssueView>,
    LinkError,
> {
    if !is_link_tag(tag) {
        Ok(None)
    } else {
        match href {
            None => Ok(Some(IssueView::MissingLink(missing_link_message(tag)))),
            Some(encoded) => match decoded_target(encoded) {
                None => Err(LinkError::UndecodableTarget),
                Some(target) => Ok(resolved_issue(tag, target, is_external(target), urls)),
            },
        }
    }
}

/// The value of an optional text.
pub open spec fn optional_text_view(text: Option<&str>) -> Option<Seq<char>> {
    match text {
        Some(text) => Some(text@),
        None => None,
    }
}

/// The value of a classification.
pub open spec fn classification_view(outcome: Result<Option<SitefixIssue>, LinkError>) -> Result<
    Option<IssueView>,
    LinkError,
> {
    match outcome {
        Ok(issue) => Ok(optional_issue_view(issue)),
        Err(e) => Err(e),
    }
}

/// `fragment_start` is the one position before which no `#` stands and at
/// which the target ends or holds a `#`.
pub proof fn lemma_fragment_start(target: Seq<char>, at: int)
    requires
        0 <= at <= target.len(),
        forall|j: int| 0 <= j < at ==> target[j] != '#',
        at < target.len() ==> target[at] == '#',
    ensures
        fragment_start(target) == at,
    decreases target.len(),
{
    if at > 0 {
        let rest = target.drop_first();
        assert forall|j: int| 0 <= j < at - 1 implies rest[j] != '#' by {
            assert(rest[j] == target[j + 1]);
        }
        lemma_fragment_start(rest, at - 1);
    }
}

/// The first `#` of a target lies within it, and the page before it holds no `#`.
pub proof fn lemma_page_part_has_no_fragment(target: Seq<char>)
    ensures
        0 <= fragment_start(target) <= target.len(),
        !page_part(target).contains('#'),
        fragment_start(target) < target.len() ==> target[fragment_start(target)] == '#',
    decreases target.len(),
{
    if target.len() == 0 || target[0] == '#' {
    } else {
        let rest = target.drop_first();
        lemma_page_part_has_no_fragment(rest);
        let at = fragment_start(target);
        assert forall|j: int| 0 <= j < at implies page_part(target)[j] != '#' by {
            if j > 0 {
                assert(page_part(rest)[j - 1] == rest[j - 1]);
                assert(page_part(rest).contains(rest[j - 1]));
            }
        }
    }
}

/// A fragment after a page is cut off before the page is looked up.
pub proof fn lemma_page_part_strips_fragment(page: Seq<char>, fragment: Seq<char>)
    requires
        !page.contains('#'),
    ensures
        page_part(page + seq!['#'] + fragment) == page,
        page_part(page) == page,
{
    let target = page + seq!['#'] + fragment;
    assert forall|j: int| 0 <= j < page.len() implies target[j] != '#' && page[j] != '#' by {
        assert(page.contains(page[j]));
    }
    lemma_fragment_start(target, page.len() as int);
    lemma_fragment_start(page, page.len() as int);
    assert(target.take(page.len() as int) =~= page);
    assert(page.take(page.len() as int) =~= page);
}

/// A link-bearing element without a target attribute gives exactly one
/// missing link, whatever the site holds.
pub proof fn lemma_missing_target_is_reported(tag: Seq<char>, urls: Set<Seq<char>>)
    requires
        is_link_tag(tag),
    ensures
        link_issue(tag, None, urls) == Ok::<Option<IssueView>, LinkError>(
            Some(IssueView::MissingLink(missing_link_message(tag))),
        ),
{
}

/// An element that bears no link gives no issue.
pub proof fn lemma_other_tags_are_silent(tag: Seq<char>, href: Option<Seq<char>>, urls: Set<Seq<char>>)
    requires
        !is_link_tag(tag),
    ensures
        link_issue(tag, href, urls) == Ok::<Option<IssueView>, LinkError>(None),
{
}

/// A target that is written without any `%` and begins with `#` is never
/// flagged, whatever element carries it and whatever the site holds.
pub proof fn lemma_plain_fragment_is_never_flagged(
    tag: Seq<char>,
    target: Seq<char>,
    urls: Set<Seq<char>>,
)
    requires
        !target.contains('%'),
        is_fragment(target),
    ensures
        link_issue(tag, Some(target), urls) == Ok::<Option<IssueView>, LinkError>(None),
{
}

/// A target that decodes to a fragment of its own page is never flagged.
pub proof fn lemma_fragment_is_never_flagged(tag: Seq<char>, encoded: Seq<char>, urls: Set<Seq<char>>)
    requires
        decoded_target(encoded) matches Some(target) && is_fragment(target),
    ensures
        link_issue(tag, Some(encoded), urls) == Ok::<Option<IssueView>, LinkError>(None),
{
}

/// A target that decodes to a link out of the site is never flagged.
pub proof fn lemma_external_is_never_flagged(tag: Seq<char>, encoded: Seq<char>, urls: Set<Seq<char>>)
    requires
        decoded_target(encoded) matches Some(target) && is_external(target),
    ensures
        link_issue(tag, Some(encoded), urls) == Ok::<Option<IssueView>, LinkError>(None),
{
}

/// A link into the site is dead exactly when the page that it names, the
/// target before its first `#`, is not a page of the site.
pub proof fn lemma_dead_exactly_when_page_unknown(
    tag: Seq<char>,
    encoded: Seq<char>,
    target: Seq<char>,
    urls: Set<Seq<char>>,
)
    requires
        is_link_tag(tag),
        decoded_target(encoded) == Some(target),
        !is_fragment(target),
        !is_external(target),
    ensures
        urls.contains(page_part(target)) ==> link_issue(tag, Some(encoded), urls) == Ok::<
            Option<IssueView>,
            LinkError,
        >(None),
        !urls.contains(page_part(target)) ==> link_issue(tag, Some(encoded), urls) == Ok::<
            Option<IssueView>,
            LinkError,
        >(Some(IssueView::DeadLink(dead_link_message(tag, target)))),
{
}

/// Whether elements with this tag bear a link.
pub fn link_bearing(tag_name: &str) -> (bearing: bool)
    ensures
        bearing == is_link_tag(tag_name@),
{
    let bearing = tag_name.unicode_len() == 1 && tag_name.get_char(0) == 'a';
    proof {
        if bearing {
            assert(tag_name@ =~= seq!['a']);
        }
    }
    bearing
}

/// Whether the decoded target only names a place on its own page.
pub fn starts_fragment(target: &str) -> (fragment: bool)
    ensures
        fragment == is_fragment(target@),
{
    target.unicode_len() > 0 && target.get_char(0) == '#'
}

/// The page that a decoded target names: the text before its first `#`.
pub fn target_page(target: &str) -> (page: String)
    ensures
        page@ == page_part(target@),
{
    let len = target.unicode_len();
    let mut at: usize = 0;
    while at < len && target.get_char(at) != '#'
        invariant
            at <= len,
            len == target@.len(),
            forall|j: int| 0 <= j < at ==> target@[j] != '#',
        decreases len - at,
    {
        at += 1;
    }
    proof {
        lemma_fragment_start(target@, at as int);
    }
    String::from_str(target.substring_char(0, at))
}

/// Whether `page` is one of the pages of the site.
pub fn site_has_page(urls: &Vec<String>, page: &String) -> (found: bool)
    ensures
        found == url_set(urls@).contains(page@),
{
    let mut i: usize = 0;
    while i < urls.len()
        invariant
            i <= urls.len(),
            forall|j: int| 0 <= j < i ==> urls@[j]@ != page@,
        decreases urls.len() - i,
    {
        if urls[i] == *page {
            return true;
        }
        i += 1;
    }
    false
}

/// The text of the issue for a link-bearing element without a target.
pub fn missing_link_text(tag_name: &str) -> (text: String)
    ensures
        text@ == missing_link_message(tag_name@),
{
    String::from_str("<").concat(tag_name).concat("> has no href")
}

/// The text of the issue for a link to a page that does not exist.
pub fn dead_link_text(tag_name: &str, target: &str) -> (text: String)
    ensures
        text@ == dead_link_message(tag_name@, target@),
{
    String::from_str("<").concat(tag_name).concat("> links to ").concat(target).concat(
        ", but that page does not exist",
    )
}

/// Resolves a decoded target against the pages of the site. `external` says
/// whether the target matched the pattern of links that leave the site.
pub fn resolve(tag_name: &str, target: &str, external: bool, urls: &Vec<String>) -> (issue: Option<
    SitefixIssue,
>)
    ensures
        optional_issue_view(issue) == resolved_issue(tag_name@, target@, external, url_set(urls@)),
{
    if starts_fragment(target) || external {
        return None;
    }
    let page = target_page(target);
    if site_has_page(urls, &page) {
        None
    } else {
        Some(SitefixIssue::DeadLink(dead_link_text(tag_name, target)))
    }
}

/// Whether a decoded target matches the pattern of links that leave the site.
pub fn leaves_site(target: &str, pattern: &ExternalPattern) -> (external: bool)
    requires
        pattern.wf(),
    ensures
        external == is_external(target@),
{
    pattern.matches(target)
}

/// Classifies one element from its tag name and its target attribute.
///
/// A tag that bears no link gives no issue; an absent target gives a missing
/// link; a target that cannot be decoded is an error; a decoded target is
/// resolved against the pages of the site, unless it matches `pattern`, the
/// pattern of links that leave the site. A target without any `%` is its
/// own decoding.
pub fn classify(
    tag_name: &str,
    href: Option<&str>,
    urls: &Vec<String>,
    pattern: &ExternalPattern,
) -> (outcome: Result<Option<SitefixIssue>, LinkError>)
    requires
        pattern.wf(),
    ensures
        classification_view(outcome) == link_issue(
            tag_name@,
            optional_text_view(href),
            url_set(urls@),
        ),
{
    if !link_bearing(tag_name) {
        return Ok(None);
    }
    match href {
        None => Ok(Some(SitefixIssue::MissingLink(missing_link_text(tag_name)))),
        Some(encoded) => match percent_decode(encoded) {
            Err(_) => Err(LinkError::UndecodableTarget),
            Ok(target) => {
                let external = !starts_fragment(target.as_str()) && leaves_site(
                    target.as_str(),
                    pattern,
                );
                Ok(resolve(tag_name, target.as_str(), external, urls))
            },
        },
    }
}

} // verus!
