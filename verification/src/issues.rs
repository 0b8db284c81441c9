use vstd::prelude::*;

verus! {

/// A problem found with one link of a page.
#[derive(Debug, Clone)]
pub enum SitefixIssue {
    /// A link-bearing element carries no target attribute.
    MissingLink(String),
    /// A link targets a page that is not part of the site.
    DeadLink(String),
}

/// The mathematical value of a [`SitefixIssue`]: its kind and the characters
/// of its message.
pub enum IssueView {
    MissingLink(Seq<char>),
    DeadLink(Seq<char>),
}

impl View for SitefixIssue {
    type V = IssueView;

    open spec fn view(&self) -> IssueView {
        match self {
            SitefixIssue::MissingLink(msg) => IssueView::MissingLink(msg@),
            SitefixIssue::DeadLink(msg) => IssueView::DeadLink(msg@),
        }
    }
}

impl IssueView {
    /// The line shown to the user for this issue.
    pub open spec fn rendered(self) -> Seq<char> {
        match self {
            IssueView::MissingLink(msg) => "Missing Link: "@ + msg,
            IssueView::DeadLink(msg) => "Dead Link: "@ + msg,
        }
    }
}

/// The values of a list of issues, in order.
pub open spec fn issue_views(issues: Seq<SitefixIssue>) -> Seq<IssueView> {
    issues.map_values(|issue: SitefixIssue| issue@)
}

/// The value of an optional issue.
pub open spec fn optional_issue_view(issue: Option<SitefixIssue>) -> Option<IssueView> {
    match issue {
        Some(issue) => Some(issue@),
        None => None,
    }
}

impl SitefixIssue {
    /// The line shown to the user: the kind of the issue, then its message.
    pub fn to_string(&self) -> (line: String)
        ensures
            line@ == self@.rendered(),
    {
        match self {
            SitefixIssue::MissingLink(msg) => String::from_str("Missing Link: ").concat(msg.as_str()),
            SitefixIssue::DeadLink(msg) => String::from_str("Dead Link: ").concat(msg.as_str()),
        }
    }
}

/// The values of a concatenation are the concatenation of the values.
pub proof fn lemma_issue_views_concat(left: Seq<SitefixIssue>, right: Seq<SitefixIssue>)
    ensures
        issue_views(left + right) == issue_views(left) + issue_views(right),
{
    assert(issue_views(left + right) =~= issue_views(left) + issue_views(right));
}

} // verus!
