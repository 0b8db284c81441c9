//! The parser of one document: it feeds the tokenizer chunk by chunk, keeps
//! the chain of open elements, and collapses what is left of the chain into
//! the issues of the document when the input ends.

use vstd::prelude::*;

use crate::fossick::links::{
    classify, optional_text_view, url_set, ExternalPattern, LinkError,
};
use crate::fossick::markup::{
    chunk_events, chunk_fails, event_views, selector_parses, ElementEvent, ElementEventView,
    ElementStart, FeedError, MarkupSource,
};
use crate::fossick::tree::{
    child_status, lemma_close_wf, lemma_final_issues_are_kept, lemma_step_wf, opened, own_issues,
    run, some_start_fails, start_fails, step, NodeStatus, NodeView, TreeState,
};
use crate::issues::{issue_views, lemma_issue_views_concat, IssueView, SitefixIssue};
use crate::options::FixOptions;
use crate::Globals;

verus! {

/// The attribute that silences an element and everything inside it.
pub const IGNORE_ATTRIBUTE: &'static str = "data-sitefix-ignore";

/// The attribute that holds the target of a link.
pub const LINK_ATTRIBUTE: &'static str = "href";

/// A single open element. Its parent is the element that was open when it
/// opened; since the tree is collapsed upwards while the document is read,
/// no other structure is kept.
#[derive(Debug)]
pub struct DomParsingNode {
    pub issues: Vec<SitefixIssue>,
    pub status: NodeStatus,
}

impl View for DomParsingNode {
    type V = NodeView;

    open spec fn view(&self) -> NodeView {
        NodeView { issues: issue_views(self.issues@), status: self.status }
    }
}

/// The values of a list of nodes, in order.
pub open spec fn node_views(nodes: Seq<DomParsingNode>) -> Seq<NodeView> {
    nodes.map_values(|node: DomParsingNode| node@)
}

/// The state while a document is read: the issues of the document itself,
/// the elements that are open, outermost first, and whether the root element
/// has been seen.
#[derive(Debug)]
pub struct DomParserData {
    root_issues: Vec<SitefixIssue>,
    open: Vec<DomParsingNode>,
    has_html_element: bool,
}

/// What was found in a document.
#[derive(Debug)]
pub struct DomParserResult {
    pub issues: Vec<SitefixIssue>,
    pub has_html_element: bool,
}

impl View for DomParserData {
    type V = TreeState;

    closed spec fn view(&self) -> TreeState {
        TreeState {
            nodes: seq![
                NodeView { issues: issue_views(self.root_issues@), status: NodeStatus::Fixing },
            ] + node_views(self.open@),
            saw_root: self.has_html_element,
        }
    }
}

impl DomParserData {
    /// The state before any element has opened.
    pub fn new() -> (data: Self)
        ensures
            data@ == TreeState::initial(),
            data@.wf(),
    {
        let data = DomParserData {
            root_issues: Vec::new(),
            open: Vec::new(),
            has_html_element: false,
        };
        assert(issue_views(data.root_issues@) =~= Seq::<IssueView>::empty());
        assert(data@.nodes =~= TreeState::initial().nodes);
        data
    }

    /// How many elements are open.
    pub fn depth(&self) -> (depth: usize)
        ensures
            depth == self@.depth(),
    {
        self.open.len()
    }

    /// Whether the root element has been seen.
    pub fn has_html_element(&self) -> (seen: bool)
        ensures
            seen == self@.saw_root,
    {
        self.has_html_element
    }

    /// The status of the innermost open element.
    pub fn status(&self) -> (status: NodeStatus)
        ensures
            status == self@.current().status,
    {
        if self.open.len() == 0 {
            NodeStatus::Fixing
        } else {
            self.open[self.open.len() - 1].status
        }
    }

    /// The innermost open element ends. Its issues are appended to those of
    /// its parent, or dropped if it is ignored. Where no element is open,
    /// nothing changes.
    pub fn on_close(&mut self)
        requires
            old(self)@.wf(),
        ensures
            final(self)@ == old(self)@.close(),
            final(self)@.wf(),
    {
        proof {
            lemma_close_wf(self@);
        }
        let ghost before = self@;
        match self.open.pop() {
            None => {},
            Some(node) => {
                assert(before.nodes.last() == node@);
                match node.status {
                    NodeStatus::Ignored => {
                        assert(self@.nodes =~= before.close().nodes);
                    },
                    NodeStatus::Fixing => {
                        let mut issues = node.issues;
                        match self.open.pop() {
                            None => {
                                proof {
                                    lemma_issue_views_concat(
                                        self.root_issues@,
                                        issues@,
                                    );
                                }
                                self.root_issues.append(&mut issues);
                                assert(self@.nodes =~= before.close().nodes);
                            },
                            Some(parent) => {
                                let mut parent = parent;
                                proof {
                                    lemma_issue_views_concat(
                                        parent.issues@,
                                        issues@,
                                    );
                                }
                                assert(before.nodes.drop_last().last() == parent@);
                                parent.issues.append(&mut issues);
                                self.open.push(parent);
                                assert(self@.nodes =~= before.close().nodes);
                            },
                        }
                    },
                }
            },
        }
    }

    /// An element opens. It is entered with the issue of its own link, if it
    /// has one, and with the status that it inherits or carries; an element
    /// without an end of its own is left again at once. The root element is
    /// noted by its tag name.
    ///
    /// The error says that the element's target could not be evaluated; the
    /// element is entered all the same, without an issue of its own.
    pub fn on_open(
        &mut self,
        start: &ElementStart,
        urls: &Vec<String>,
        root_tag: &String,
        pattern: &ExternalPattern,
    ) -> (noted: Result<(), LinkError>)
        requires
            old(self)@.wf(),
            pattern.wf(),
        ensures
            final(self)@ == opened(old(self)@, start@, url_set(urls@), root_tag@),
            final(self)@.wf(),
            noted is Err <==> start_fails(start@, url_set(urls@)),
    {
        proof {
            lemma_step_wf(self@, ElementEventView::Open(start@), url_set(urls@), root_tag@);
        }
        let ghost before = self@;
        let href = match &start.href {
            Some(href) => Some(href.as_str()),
            None => None,
        };
        let outcome = classify(start.tag_name.as_str(), href, urls, pattern);
        assert(optional_text_view(href) == start@.href);
        let mut own: Vec<SitefixIssue> = Vec::new();
        let noted = match outcome {
            Ok(Some(issue)) => {
                own.push(issue);
                assert(issue_views(own@) =~= seq![issue@]);
                Ok(())
            },
            Ok(None) => {
                assert(issue_views(own@) =~= Seq::<IssueView>::empty());
                Ok(())
            },
            Err(e) => {
                assert(issue_views(own@) =~= Seq::<IssueView>::empty());
                Err(e)
            },
        };
        assert(issue_views(own@) == own_issues(start@, url_set(urls@)));
        let status = match self.status() {
            NodeStatus::Ignored => NodeStatus::Ignored,
            NodeStatus::Fixing => if start.ignored {
                NodeStatus::Ignored
            } else {
                NodeStatus::Fixing
            },
        };
        assert(status == child_status(before.current().status, start.ignored));
        if start.tag_name == *root_tag {
            self.has_html_element = true;
        }
        self.open.push(DomParsingNode { issues: own, status });
        assert(self@.nodes =~= before.open(
            own_issues(start@, url_set(urls@)),
            start.ignored,
            start@.tag_name == root_tag@,
        ).nodes);
        if !start.closes {
            self.on_close();
        }
        noted
    }

    /// One event of the document is taken in.
    pub fn apply(
        &mut self,
        event: &ElementEvent,
        urls: &Vec<String>,
        root_tag: &String,
        pattern: &ExternalPattern,
    ) -> (noted: Result<(), LinkError>)
        requires
            old(self)@.wf(),
            pattern.wf(),
        ensures
            final(self)@ == step(old(self)@, event@, url_set(urls@), root_tag@),
            final(self)@.wf(),
            noted is Err <==> (event@ matches ElementEventView::Open(start) && start_fails(
                start,
                url_set(urls@),
            )),
    {
        match event {
            ElementEvent::Open(start) => self.on_open(start, urls, root_tag, pattern),
            ElementEvent::Close => {
                self.on_close();
                Ok(())
            },
        }
    }

    /// A run of events is taken in, in order. The error says that the target
    /// of at least one element of the run could not be evaluated; the whole
    /// run is taken in all the same.
    pub fn apply_all(
        &mut self,
        events: &Vec<ElementEvent>,
        urls: &Vec<String>,
        root_tag: &String,
        pattern: &ExternalPattern,
    ) -> (noted: Result<(), LinkError>)
        requires
            old(self)@.wf(),
            pattern.wf(),
        ensures
            final(self)@ == run(old(self)@, event_views(events@), url_set(urls@), root_tag@),
            final(self)@.wf(),
            noted is Err <==> some_start_fails(event_views(events@), url_set(urls@)),
    {
        let ghost all = event_views(events@);
        let ghost site = url_set(urls@);
        let mut noted: Result<(), LinkError> = Ok(());
        let mut i: usize = 0;
        assert(all.take(0) =~= Seq::<ElementEventView>::empty());
        while i < events.len()
            invariant
                i <= events.len(),
                all == event_views(events@),
                site == url_set(urls@),
                self@ == run(old(self)@, all.take(i as int), site, root_tag@),
                self@.wf(),
                pattern.wf(),
                noted is Err <==> some_start_fails(all.take(i as int), site),
            decreases events.len() - i,
        {
            let ghost seen = all.take(i as int);
            let ghost next = all.take(i + 1);
            assert(next.drop_last() =~= seen);
            assert(next.last() == events@[i as int]@);
            let step_noted = self.apply(&events[i], urls, root_tag, pattern);
            proof {
                if some_start_fails(seen, site) {
                    let k = choose|k: int|
                        0 <= k < seen.len() && (#[trigger] seen[k] matches ElementEventView::Open(
                            start,
                        ) && start_fails(start, site));
                    assert(next[k] == seen[k]);
                }
                if step_noted is Err {
                    assert(next[i as int] == next.last());
                }
                if some_start_fails(next, site) {
                    let k = choose|k: int|
                        0 <= k < next.len() && (#[trigger] next[k] matches ElementEventView::Open(
                            start,
                        ) && start_fails(start, site));
                    if k < i {
                        assert(seen[k] == next[k]);
                    }
                }
            }
            if let Err(e) = step_noted {
                noted = Err(e);
            }
            i += 1;
        }
        assert(all.take(i as int) =~= all);
        noted
    }

    /// The input has ended. Every element that is still open is ended,
    /// innermost first, as if its end tag had been read; what has gathered
    /// at the document itself is the result.
    pub fn finish(self) -> (found: DomParserResult)
        requires
            self@.wf(),
        ensures
            issue_views(found.issues@) == self@.final_issues(),
            found.has_html_element == self@.saw_root,
    {
        let mut data = self;
        proof {
            lemma_final_issues_are_kept(self@);
        }
        while data.depth() > 0
            invariant
                data@.wf(),
                data@.collapsed() == self@.collapsed(),
            decreases data@.nodes.len(),
        {
            data.on_close();
        }
        DomParserResult { issues: data.root_issues, has_html_element: data.has_html_element }
    }
}

/// Why a parser could not be made.
#[derive(Clone, Copy, Debug, PartialEq, Eq, Structural)]
pub enum ParserError {
    /// The root selector of the options is no CSS selector.
    InvalidRootSelector,
}

/// Why a chunk of a document was not taken in cleanly.
#[derive(Debug)]
pub enum ParseError {
    /// The tokenizer gave up on the document; its description is attached.
    /// The parser takes no more input.
    Rewriting(String),
    /// The target of a link in the chunk could not be evaluated. The chunk
    /// was taken in all the same and the parser goes on.
    Link(LinkError),
    /// The tokenizer gave up on an earlier chunk.
    Stopped,
}

/// The selector of the elements that are examined: the root element and
/// everything below it.
pub open spec fn scope_selector(root: Seq<char>) -> Seq<char> {
    root + ", "@ + root + " *"@
}

/// Houses the tokenizer and the state of one document while it is read.
pub struct DomParser<'a> {
    source: MarkupSource,
    data: DomParserData,
    pattern: ExternalPattern,
    globals: &'a Globals,
    options: &'a FixOptions,
}

impl<'a> DomParser<'a> {
    /// The chain of open elements.
    pub closed spec fn state(&self) -> TreeState {
        self.data@
    }

    /// Whether the parser still takes input.
    pub closed spec fn accepting(&self) -> bool {
        self.source.running()
    }

    /// The pages of the site that links are checked against.
    pub closed spec fn urls(&self) -> Set<Seq<char>> {
        url_set(self.globals.urls@)
    }

    /// The tag of the root element.
    pub closed spec fn root_tag(&self) -> Seq<char> {
        self.options.root_selector@
    }

    /// The chunks that were written while the parser took input.
    pub closed spec fn written(&self) -> Seq<Seq<u8>> {
        self.source.written()
    }

    /// The tokenizer was set up for the root tag and has taken exactly the
    /// chunks that were written, and the pattern of links that leave the
    /// site is compiled.
    pub closed spec fn in_step(&self) -> bool {
        &&& self.source.wf()
        &&& self.pattern.wf()
        &&& self.source.selector() == scope_selector(self.options.root_selector@)
        &&& self.source.ignore_attr() == IGNORE_ATTRIBUTE@
        &&& self.source.link_attr() == LINK_ATTRIBUTE@
    }

    /// The parser is in order: the chain of open elements is well formed and
    /// the tokenizer is in step with what was written.
    pub open spec fn wf(&self) -> bool {
        self.state().wf() && self.in_step()
    }

    /// The events that the tokenizer finds in `chunk` if it is written next:
    /// what `lol_html` makes of the selector of the root tag, the two
    /// attribute names and the chunks written so far with `chunk` behind
    /// them.
    pub open spec fn events_of(&self, chunk: Seq<u8>) -> Seq<ElementEventView> {
        chunk_events(
            scope_selector(self.root_tag()),
            IGNORE_ATTRIBUTE@,
            LINK_ATTRIBUTE@,
            self.written().push(chunk),
        )
    }

    /// Whether the tokenizer gives up on `chunk` if it is written next.
    pub open spec fn fails_on(&self, chunk: Seq<u8>) -> bool {
        chunk_fails(scope_selector(self.root_tag()), self.written().push(chunk))
    }

    /// Whether some link in `chunk`, if it is written next, has a target
    /// that cannot be evaluated.
    pub open spec fn bad_link_in(&self, chunk: Seq<u8>) -> bool {
        some_start_fails(self.events_of(chunk), self.urls())
    }

    /// Whether this parser is `earlier` after `chunk` was written to it: the
    /// chunk is on record and the events that the tokenizer found in it
    /// have been run on the chain of open elements.
    pub open spec fn took(&self, earlier: Self, chunk: Seq<u8>) -> bool {
        &&& self.wf()
        &&& self.urls() == earlier.urls()
        &&& self.root_tag() == earlier.root_tag()
        &&& self.written() == earlier.written().push(chunk)
        &&& self.state() == run(
            earlier.state(),
            earlier.events_of(chunk),
            earlier.urls(),
            earlier.root_tag(),
        )
    }

    /// A parser for one document of the site described by `globals`, which
    /// examines the root element named by the options and everything below
    /// it. It fails exactly where the selector made of the root selector is
    /// not accepted. Nothing has been written to it yet.
    pub fn new(globals: &'a Globals, options: &'a FixOptions) -> (parser: Result<Self, ParserError>)
        ensures
            parser is Ok <==> selector_parses(scope_selector(options.root_selector@)),
            parser matches Ok(p) ==> {
                &&& p.wf()
                &&& p.state() == TreeState::initial()
                &&& p.written() == Seq::<Seq<u8>>::empty()
                &&& p.accepting()
                &&& p.urls() == url_set(globals.urls@)
                &&& p.root_tag() == options.root_selector@
            },
    {
        let root = options.root_selector.as_str();
        let scope = String::from_str(root).concat(", ").concat(root).concat(" *");
        match MarkupSource::open(scope.as_str(), IGNORE_ATTRIBUTE, LINK_ATTRIBUTE) {
            Ok(source) => Ok(
                DomParser {
                    source,
                    data: DomParserData::new(),
                    pattern: ExternalPattern::new(),
                    globals,
                    options,
                },
            ),
            Err(_) => Err(ParserError::InvalidRootSelector),
        }
    }

    /// Writes a chunk of the document to the tokenizer and takes in the
    /// events that it finds in it.
    ///
    /// A parser that has stopped takes nothing and says so. Otherwise the
    /// chunk goes to the tokenizer as it is, and the events that the
    /// tokenizer finds are run on the chain of open elements, also where it
    /// gives up on the chunk. If it gives up, its failure comes back and the
    /// parser stops for good. If not, a link whose target cannot be
    /// evaluated is reported and the parser goes on.
    pub fn write(&mut self, data: &[u8]) -> (taken: Result<(), ParseError>)
        requires
            old(self).wf(),
        ensures
            final(self).wf(),
            final(self).urls() == old(self).urls(),
            final(self).root_tag() == old(self).root_tag(),
            taken matches Err(ParseError::Stopped) <==> !old(self).accepting(),
            !old(self).accepting() ==> !final(self).accepting() && final(self).state() == old(
                self,
            ).state() && final(self).written() == old(self).written(),
            old(self).accepting() ==> final(self).took(*old(self), data@),
            taken matches Err(ParseError::Rewriting(_)) <==> old(self).accepting() && old(
                self,
            ).fails_on(data@),
            taken matches Err(ParseError::Link(_)) <==> old(self).accepting() && !old(
                self,
            ).fails_on(data@) && old(self).bad_link_in(data@),
            final(self).accepting() <==> old(self).accepting() && !old(self).fails_on(data@),
    {
        let ghost before = self.data@;
        let found = self.source.read(data);
        let events = found.0;
        let noted = self.data.apply_all(
            &events,
            &self.globals.urls,
            &self.options.root_selector,
            &self.pattern,
        );
        proof {
            if events@.len() == 0 {
                assert(event_views(events@) =~= Seq::<ElementEventView>::empty());
            }
        }
        match found.1 {
            Err(FeedError::Rewriting(text)) => Err(ParseError::Rewriting(text)),
            Err(FeedError::Stopped) => Err(ParseError::Stopped),
            Ok(()) => match noted {
                Ok(()) => Ok(()),
                Err(e) => Err(ParseError::Link(e)),
            },
        }
    }

    /// Ends the document and returns what was found in it. Elements that
    /// were never ended are ended now, innermost first, so that their issues
    /// are neither lost nor reported twice.
    pub fn wrap(self) -> (found: DomParserResult)
        requires
            self.state().wf(),
        ensures
            issue_views(found.issues@) == self.state().final_issues(),
            found.has_html_element == self.state().saw_root,
    {
        self.data.finish()
    }
}

} // verus!
