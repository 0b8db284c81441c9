//! What a run has to say when every file has been read: the pages without a
//! root element and the issues of each page, line by line.

use vstd::prelude::*;

use crate::fossick::{FossickedData, Fossicker};
use crate::issues::{issue_views, IssueView};
use crate::{FixState, Globals};

verus! {

/// The values of a list of texts, in order.
pub open spec fn text_views(texts: Seq<String>) -> Seq<Seq<char>> {
    texts.map_values(|text: String| text@)
}

/// The URLs of all files, file by file.
pub open spec fn all_urls(files: Seq<Fossicker>) -> Seq<Seq<char>>
    decreases files.len(),
{
    if files.len() == 0 {
        Seq::empty()
    } else {
        all_urls(files.drop_last()) + text_views(files.last().urls@)
    }
}

/// The paths of all files, in order.
pub open spec fn all_paths(files: Seq<Fossicker>) -> Seq<Seq<char>> {
    files.map_values(|file: Fossicker| file.file_path@)
}

/// The line that reports one issue of the page at `path`.
pub open spec fn issue_line(path: Seq<char>, issue: IssueView) -> Seq<char> {
    "* "@ + path + ": "@ + issue.rendered()
}

/// The lines that report the issues of one page, in order.
pub open spec fn page_lines(path: Seq<char>, issues: Seq<IssueView>) -> Seq<Seq<char>> {
    issues.map_values(|issue: IssueView| issue_line(path, issue))
}

/// The lines that report the issues of all pages that were read, page by
/// page. A file that was skipped adds nothing.
pub open spec fn report_lines(pages: Seq<Result<FossickedData, ()>>) -> Seq<Seq<char>>
    decreases pages.len(),
{
    if pages.len() == 0 {
        Seq::empty()
    } else {
        report_lines(pages.drop_last()) + match pages.last() {
            Ok(page) => page_lines(page.file_path@, issue_views(page.issues@)),
            Err(_) => Seq::empty(),
        }
    }
}

/// The paths of the pages that were read and hold no root element, in
/// order. They are only gathered where the root element is `html`.
pub open spec fn rootless_pages(pages: Seq<Result<FossickedData, ()>>, root: Seq<char>) -> Seq<
    Seq<char>,
>
    decreases pages.len(),
{
    if pages.len() == 0 || root != "html"@ {
        Seq::empty()
    } else {
        match pages.last() {
            Ok(page) if !page.has_html_element => rootless_pages(pages.drop_last(), root).push(
                page.file_path@,
            ),
            _ => rootless_pages(pages.drop_last(), root),
        }
    }
}

/// What a run reports at its end.
#[derive(Debug)]
pub struct RunReport {
    /// How many files were read or skipped.
    pub checked: usize,
    /// The paths of the pages without a root element.
    pub pages_without_html: Vec<String>,
    /// One line for every issue that was found.
    pub issues: Vec<String>,
}

impl Globals {
    /// What the pages of a run are checked against: the URLs and the paths
    /// of all the files that were found.
    pub fn collect(files: &Vec<Fossicker>) -> (globals: Globals)
        ensures
            text_views(globals.urls@) == all_urls(files@),
            text_views(globals.paths@) == all_paths(files@),
    {
        let mut urls: Vec<String> = Vec::new();
        let mut paths: Vec<String> = Vec::new();
        let mut i: usize = 0;
        assert(files@.take(0) =~= Seq::<Fossicker>::empty());
        assert(text_views(urls@) =~= all_urls(files@.take(0)));
        assert(text_views(paths@) =~= all_paths(files@.take(0)));
        while i < files.len()
            invariant
                i <= files.len(),
                text_views(urls@) == all_urls(files@.take(i as int)),
                text_views(paths@) == all_paths(files@.take(i as int)),
            decreases files.len() - i,
        {
            let file = &files[i];
            let ghost before = urls@;
            let mut j: usize = 0;
            assert(text_views(file.urls@.take(0)) =~= Seq::<Seq<char>>::empty());
            assert(text_views(before) + Seq::<Seq<char>>::empty() =~= text_views(before));
            while j < file.urls.len()
                invariant
                    j <= file.urls.len(),
                    text_views(urls@) == text_views(before) + text_views(file.urls@.take(j as int)),
                decreases file.urls.len() - j,
            {
                let ghost earlier = urls@;
                urls.push(file.urls[j].clone());
                proof {
                    assert(text_views(urls@) =~= text_views(earlier).push(file.urls@[j as int]@));
                    assert(text_views(file.urls@.take(j + 1)) =~= text_views(
                        file.urls@.take(j as int),
                    ).push(file.urls@[j as int]@));
                    assert(text_views(before) + text_views(file.urls@.take(j + 1)) =~= (text_views(
                        before,
                    ) + text_views(file.urls@.take(j as int))).push(file.urls@[j as int]@));
                }
                j += 1;
            }
            let ghost earlier_paths = paths@;
            paths.push(file.file_path.clone());
            proof {
                assert(file.urls@.take(j as int) =~= file.urls@);
                assert(files@.take(i + 1).drop_last() =~= files@.take(i as int));
                assert(files@.take(i + 1).last() == files@[i as int]);
                assert(text_views(paths@) =~= text_views(earlier_paths).push(file.file_path@));
                assert(all_paths(files@.take(i + 1)) =~= all_paths(files@.take(i as int)).push(
                    file.file_path@,
                ));
            }
            i += 1;
        }
        assert(files@.take(i as int) =~= files@);
        Globals { urls, paths }
    }
}

impl FixState {
    /// The line that reports one issue of the page at `path`.
    pub fn issue_line(path: &str, issue: &crate::SitefixIssue) -> (line: String)
        ensures
            line@ == issue_line(path@, issue@),
    {
        let rendered = issue.to_string();
        String::from_str("* ").concat(path).concat(": ").concat(rendered.as_str())
    }

    /// Sums up a run whose files came to `pages`: how many files were
    /// checked, which pages hold no root element, and the line of every
    /// issue, page by page.
    pub fn report(&self, pages: &Vec<Result<FossickedData, ()>>) -> (report: RunReport)
        ensures
            report.checked == pages@.len(),
            text_views(report.pages_without_html@) == rootless_pages(
                pages@,
                self.options.root_selector@,
            ),
            text_views(report.issues@) == report_lines(pages@),
    {
        let root = self.options.root_selector.as_str();
        let html_root = String::from_str(root) == String::from_str("html");
        let mut rootless: Vec<String> = Vec::new();
        let mut lines: Vec<String> = Vec::new();
        let mut i: usize = 0;
        assert(pages@.take(0) =~= Seq::<Result<FossickedData, ()>>::empty());
        assert(text_views(rootless@) =~= rootless_pages(pages@.take(0), root@));
        assert(text_views(lines@) =~= report_lines(pages@.take(0)));
        while i < pages.len()
            invariant
                i <= pages.len(),
                root@ == self.options.root_selector@,
                html_root == (root@ == "html"@),
                text_views(rootless@) == rootless_pages(pages@.take(i as int), root@),
                text_views(lines@) == report_lines(pages@.take(i as int)),
            decreases pages.len() - i,
        {
            let ghost seen = pages@.take(i as int);
            let ghost next = pages@.take(i + 1);
            assert(next.drop_last() =~= seen);
            assert(next.last() == pages@[i as int]);
            let ghost lines_before = lines@;
            let ghost rootless_before = rootless@;
            match &pages[i] {
                Err(_) => {
                    assert(report_lines(seen) + Seq::<Seq<char>>::empty() =~= report_lines(seen));
                    proof {
                        if !html_root {
                            assert(rootless_pages(seen, root@) =~= rootless_pages(next, root@));
                        }
                    }
                },
                Ok(page) => {
                    if html_root && !page.has_html_element {
                        rootless.push(page.file_path.clone());
                        assert(text_views(rootless@) =~= text_views(rootless_before).push(
                            page.file_path@,
                        ));
                    }
                    let ghost found = issue_views(page.issues@);
                    let mut j: usize = 0;
                    assert(page_lines(page.file_path@, found.take(0)) =~= Seq::<Seq<char>>::empty());
                    assert(text_views(lines_before) + Seq::<Seq<char>>::empty() =~= text_views(
                        lines_before,
                    ));
                    while j < page.issues.len()
                        invariant
                            j <= page.issues.len(),
                            found == issue_views(page.issues@),
                            text_views(lines@) == text_views(lines_before) + page_lines(
                                page.file_path@,
                                found.take(j as int),
                            ),
                        decreases page.issues.len() - j,
                    {
                        let ghost earlier = lines@;
                        let line = Self::issue_line(page.file_path.as_str(), &page.issues[j]);
                        lines.push(line);
                        proof {
                            assert(found[j as int] == page.issues@[j as int]@);
                            assert(text_views(lines@) =~= text_views(earlier).push(line@));
                            assert(page_lines(page.file_path@, found.take(j + 1)) =~= page_lines(
                                page.file_path@,
                                found.take(j as int),
                            ).push(line@));
                            assert(text_views(lines_before) + page_lines(
                                page.file_path@,
                                found.take(j + 1),
                            ) =~= (text_views(lines_before) + page_lines(
                                page.file_path@,
                                found.take(j as int),
                            )).push(line@));
                        }
                        j += 1;
                    }
                    assert(found.take(j as int) =~= found);
                },
            }
            i += 1;
        }
        assert(pages@.take(i as int) =~= pages@);
        RunReport { checked: pages.len(), pages_without_html: rootless, issues: lines }
    }
}

} // verus!
