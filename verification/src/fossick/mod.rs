//! One file of the site: its URL, and what reading it found.

use vstd::prelude::*;

pub mod links;
pub mod markup;
pub mod parser;
pub mod paths;
pub mod tree;

use crate::issues::{issue_views, SitefixIssue};
use crate::options::FixOptions;
use links::LinkError;
use parser::{DomParser, DomParserResult, ParseError};
use paths::{chars_of, rest_of, without_base};

verus! {

/// What was found in one file of the site.
#[derive(Debug)]
pub struct FossickedData {
    pub file_path: String,
    pub issues: Vec<SitefixIssue>,
    pub has_html_element: bool,
}

/// One file of the site that is to be read.
#[derive(Debug)]
pub struct Fossicker {
    pub file_path: String,
    pub urls: Vec<String>,
    pub data: Option<DomParserResult>,
}

/// The name of the file that stands for its directory.
pub open spec fn index_file() -> Seq<char> {
    "index.html"@
}

/// A relative path without the name of the index file at its end.
pub open spec fn without_index(path: Seq<char>) -> Seq<char> {
    if index_file().is_suffix_of(path) {
        path.take(path.len() - index_file().len())
    } else {
        path
    }
}

/// The URL of a page within the site: what is left of its path when the
/// source directory is taken off component by component, after a `/` and
/// without the name of the index file at its end. A file whose path does
/// not begin with the components of the source directory has none.
pub open spec fn site_url(path: Seq<char>, source: Seq<char>) -> Option<Seq<char>> {
    match without_base(path, source) {
        Some(relative) => Some("/"@ + without_index(relative)),
        None => None,
    }
}

/// Whether one text ends with another.
fn finishes_with(text: &str, end: &str) -> (finishes: bool)
    ensures
        finishes == end@.is_suffix_of(text@),
{
    let len = end.unicode_len();
    let whole = text.unicode_len();
    if whole < len {
        return false;
    }
    let tail = String::from_str(text.substring_char(whole - len, whole));
    let finishes = tail == String::from_str(end);
    proof {
        if finishes {
            assert(end@ =~= text@.subrange(whole - len, whole as int));
        }
        if end@.is_suffix_of(text@) {
            assert(text@.subrange(whole - len, whole as int) =~= end@);
        }
    }
    finishes
}

/// Whether the file at `page_url` lies in or below the root directory that
/// the options name, so that it has a URL within the site.
pub fn lies_in_source(page_url: &String, options: &FixOptions) -> (below: bool)
    ensures
        below == (site_url(page_url@, options.source@) is Some),
{
    let path = chars_of(page_url.as_str());
    let source = chars_of(options.source.as_str());
    rest_of(&path, &source).is_some()
}

/// The URL of the page at `page_url` within the site whose root directory
/// the options name: what follows the root directory in the path, after a
/// `/` and without the name of the index file at its end.
///
/// The file has to lie in or below the root directory, which
/// [`lies_in_source`] tells.
pub fn build_url(page_url: &String, options: &FixOptions) -> (url: String)
    requires
        site_url(page_url@, options.source@) is Some,
    ensures
        site_url(page_url@, options.source@) == Some(url@),
{
    let path = chars_of(page_url.as_str());
    let source = chars_of(options.source.as_str());
    let (start, end) = match rest_of(&path, &source) {
        Some(range) => range,
        None => (0, 0),
    };
    let relative = page_url.as_str().substring_char(start, end);
    let kept = if finishes_with(relative, "index.html") {
        let whole = relative.unicode_len();
        let cut = "index.html".unicode_len();
        proof {
            assert(relative@.subrange(0, whole - cut) =~= relative@.take(whole - cut));
        }
        relative.substring_char(0, whole - cut)
    } else {
        relative
    };
    String::from_str("/").concat(kept)
}

/// What the reading of one chunk of a file came to.
pub enum ReadStep<'a> {
    /// The chunk was taken in; the file is read on.
    More(DomParser<'a>),
    /// The chunk was taken in, but the target of a link in it could not be
    /// evaluated; the file is read on.
    BadLink(DomParser<'a>, LinkError),
    /// The file has ended and what was found in it is recorded.
    Finished,
    /// The file could not be parsed; it is left without a result.
    Skipped(ParseError),
}

impl Fossicker {
    /// A file of the site at `file_path`, with the URL that it is served
    /// under and no result yet. The file has to lie in or below the source
    /// directory, which [`lies_in_source`] tells.
    pub fn new(file_path: String, options: &FixOptions) -> (file: Self)
        requires
            site_url(file_path@, options.source@) is Some,
        ensures
            file.file_path@ == file_path@,
            file.urls@.len() == 1,
            site_url(file_path@, options.source@) == Some(file.urls@[0]@),
            file.data is None,
    {
        let mut urls = Vec::new();
        urls.push(build_url(&file_path, options));
        Fossicker { urls, file_path, data: None }
    }

    /// Takes in what was read of the file: a chunk, or nothing at its end.
    ///
    /// At the end of the file the parser is closed and its result recorded.
    /// A chunk is written to the parser. If the chunk is taken, the file is
    /// read on with the parser as it then stands, also where a link in the
    /// chunk has a target that cannot be evaluated. If the parser had
    /// stopped or the tokenizer gives up on the chunk, the file is skipped
    /// and stays without a result.
    pub fn read_chunk<'a>(&mut self, parser: DomParser<'a>, chunk: &[u8]) -> (step: ReadStep<'a>)
        requires
            parser.wf(),
        ensures
            final(self).file_path == old(self).file_path,
            final(self).urls == old(self).urls,
            chunk@.len() == 0 <==> step is Finished,
            step is Finished ==> (final(self).data matches Some(found) && issue_views(
                found.issues@,
            ) == parser.state().final_issues() && found.has_html_element
                == parser.state().saw_root),
            !(step is Finished) ==> final(self).data == old(self).data,
            step matches ReadStep::Skipped(ParseError::Stopped) <==> chunk@.len() > 0
                && !parser.accepting(),
            step matches ReadStep::Skipped(ParseError::Rewriting(_)) <==> chunk@.len() > 0
                && parser.accepting() && parser.fails_on(chunk@),
            step is BadLink <==> chunk@.len() > 0 && parser.accepting() && !parser.fails_on(
                chunk@,
            ) && parser.bad_link_in(chunk@),
            step is More <==> chunk@.len() > 0 && parser.accepting() && !parser.fails_on(chunk@)
                && !parser.bad_link_in(chunk@),
            step matches ReadStep::More(next) ==> next.accepting() && next.took(parser, chunk@),
            step matches ReadStep::BadLink(next, _) ==> next.accepting() && next.took(
                parser,
                chunk@,
            ),
    {
        if chunk.len() == 0 {
            self.data = Some(parser.wrap());
            return ReadStep::Finished;
        }
        let mut parser = parser;
        match parser.write(chunk) {
            Ok(()) => ReadStep::More(parser),
            Err(ParseError::Link(e)) => ReadStep::BadLink(parser, e),
            Err(e) => ReadStep::Skipped(e),
        }
    }

    /// The result for the file: what was found in it, or an error where it
    /// was left without a result.
    pub fn fossick(self) -> (found: Result<FossickedData, ()>)
        ensures
            found is Ok <==> self.data is Some,
            found matches Ok(page) ==> {
                &&& page.file_path == self.file_path
                &&& page.issues == self.data->Some_0.issues
                &&& page.has_html_element == self.data->Some_0.has_html_element
            },
    {
        match self.data {
            None => Err(()),
            Some(data) => Ok(
                FossickedData {
                    file_path: self.file_path,
                    has_html_element: data.has_html_element,
                    issues: data.issues,
                },
            ),
        }
    }
}

} // verus!
