//! The markup events that drive the parser, and the streaming tokenizer
//! that produces them.
//!
//! The tokenizer is `lol_html`. It reports each element that matches a
//! selector when its start tag is read, and the end of an element when its
//! end tag is read or implied. Both are recorded as [`ElementEvent`]s in a
//! queue that is emptied after every chunk. What the tokenizer finds in a
//! chunk depends on nothing but the selector, the two attribute names and
//! the chunks written so far; it is named by [`chunk_events`].

use std::borrow::Cow;
use std::cell::RefCell;
use std::rc::Rc;
use vstd::prelude::*;

verus! {

/// What the parser reads of an element when it opens.
#[derive(Debug)]
pub struct ElementStart {
    /// The tag name, in lower case.
    pub tag_name: String,
    /// Whether the element carries the attribute that silences it and
    /// everything inside it.
    pub ignored: bool,
    /// The value of the target attribute, where the element has one.
    pub href: Option<String>,
    /// Whether an end of this element will be reported later. It is not for
    /// an element that cannot have content.
    pub closes: bool,
}

/// One step of the document, in document order.
#[derive(Debug)]
pub enum ElementEvent {
    /// An element opened.
    Open(ElementStart),
    /// The innermost element that is still open ended.
    Close,
}

/// The mathematical value of an [`ElementStart`].
pub struct ElementStartView {
    pub tag_name: Seq<char>,
    pub ignored: bool,
    pub href: Option<Seq<char>>,
    pub closes: bool,
}

/// The mathematical value of an [`ElementEvent`].
pub enum ElementEventView {
    Open(ElementStartView),
    Close,
}

impl View for ElementStart {
    type V = ElementStartView;

    open spec fn view(&self) -> ElementStartView {
        ElementStartView {
            tag_name: self.tag_name@,
            ignored: self.ignored,
            href: match self.href {
                Some(href) => Some(href@),
                None => None,
            },
            closes: self.closes,
        }
    }
}

impl View for ElementEvent {
    type V = ElementEventView;

    open spec fn view(&self) -> ElementEventView {
        match self {
            ElementEvent::Open(start) => ElementEventView::Open(start@),
            ElementEvent::Close => ElementEventView::Close,
        }
    }
}

/// The values of a list of events, in order.
pub open spec fn event_views(events: Seq<ElementEvent>) -> Seq<ElementEventView> {
    events.map_values(|event: ElementEvent| event@)
}

/// `lol_html`'s element, as a handler sees it. Nothing of it is known here.
#[verifier::external_type_specification]
#[verifier::external_body]
pub struct ExElement<'r, 't>(lol_html::html_content::Element<'r, 't>);

/// `lol_html`'s reason for refusing a selector.
#[verifier::external_type_specification]
#[verifier::external_body]
pub struct ExSelectorError(lol_html::errors::SelectorError);

/// `lol_html`'s reason for giving up on a document.
#[verifier::external_type_specification]
#[verifier::external_body]
pub struct ExRewritingError(lol_html::errors::RewritingError);

/// The cell that the handlers and the parser share the queue in. Nothing
/// is claimed of what it holds.
#[verifier::external_type_specification]
#[verifier::external_body]
#[verifier::reject_recursive_types(T)]
pub struct ExRefCell<T: ?Sized>(RefCell<T>);

/// A running `lol_html::HtmlRewriter` that has taken no chunk it failed on,
/// with the queue that its handlers record in. The queue is empty whenever
/// the stream is at rest.
///
/// The rewriter's output goes nowhere: the document is read, not rewritten.
#[verifier::external_body]
pub struct ElementStream {
    rewriter: lol_html::HtmlRewriter<'static, fn(&[u8])>,
    queue: Rc<RefCell<Vec<ElementEvent>>>,
}

/// Whether `lol_html` accepts `selector` as a CSS selector.
pub uninterp spec fn selector_parses(selector: Seq<char>) -> bool;

/// The selector that a stream was opened with.
pub uninterp spec fn stream_selector(stream: ElementStream) -> Seq<char>;

/// The name of the ignore attribute that a stream was opened with.
pub uninterp spec fn stream_ignore_attr(stream: ElementStream) -> Seq<char>;

/// The name of the target attribute that a stream was opened with.
pub uninterp spec fn stream_link_attr(stream: ElementStream) -> Seq<char>;

/// The chunks that a stream has taken, in order.
pub uninterp spec fn stream_chunks(stream: ElementStream) -> Seq<Seq<u8>>;

/// The events that `lol_html` finds while the last of `chunks` is written to
/// a rewriter that was made for `selector` and the two attribute names and
/// has taken the chunks before it. Where the last chunk fails, these are the
/// events found up to the failure.
pub uninterp spec fn chunk_events(
    selector: Seq<char>,
    ignore_attr: Seq<char>,
    link_attr: Seq<char>,
    chunks: Seq<Seq<u8>>,
) -> Seq<ElementEventView>;

/// Whether `lol_html` gives up on the last of `chunks`, written to a
/// rewriter that was made for `selector` and has taken the chunks before it.
pub uninterp spec fn chunk_fails(selector: Seq<char>, chunks: Seq<Seq<u8>>) -> bool;

/// Whether two streams were opened with the same selector and attribute
/// names.
pub open spec fn same_setup(first: ElementStream, second: ElementStream) -> bool {
    &&& stream_selector(first) == stream_selector(second)
    &&& stream_ignore_attr(first) == stream_ignore_attr(second)
    &&& stream_link_attr(first) == stream_link_attr(second)
}

/// Calls `Element::tag_name`.
#[verifier::external_body]
fn element_tag_name(el: &lol_html::html_content::Element) -> String {
    el.tag_name()
}

/// Calls `Element::has_attribute`.
#[verifier::external_body]
fn element_has_attribute(el: &lol_html::html_content::Element, name: &str) -> bool {
    el.has_attribute(name)
}

/// Calls `Element::get_attribute`.
#[verifier::external_body]
fn element_attribute(el: &lol_html::html_content::Element, name: &str) -> Option<String> {
    el.get_attribute(name)
}

/// Asks with `Element::on_end_tag` for the end of the element to be recorded
/// in the queue that `shared` holds, which the handler borrows with
/// `RefCell::borrow_mut` when the end is read. The answer is whether the
/// element can have an end.
#[verifier::external_body]
fn watch_end_tag(
    el: &mut lol_html::html_content::Element,
    shared: &Rc<RefCell<Vec<ElementEvent>>>,
) -> bool {
    let shared = Rc::clone(shared);
    el.on_end_tag(
        move |_end| {
            record_close(&mut shared.borrow_mut());
            Ok(())
        },
    ).is_ok()
}

/// Builds an `HtmlRewriter` with `HtmlRewriter::new` whose one handler
/// records every element that matches `selector` in the stream's queue,
/// which it borrows with `RefCell::borrow_mut` for the time of the call. It
/// fails exactly where `lol_html` does not accept the selector. The stream
/// that comes back has taken no chunk yet.
#[verifier::external_body]
fn open_stream(selector: &str, ignore_attr: String, link_attr: String) -> (stream: Result<
    ElementStream,
    lol_html::errors::SelectorError,
>)
    ensures
        stream is Ok <==> selector_parses(selector@),
        stream matches Ok(opened) ==> stream_selector(opened) == selector@ && stream_ignore_attr(
            opened,
        ) == ignore_attr@ && stream_link_attr(opened) == link_attr@ && stream_chunks(opened).len()
            == 0,
{
    let selector = selector.parse::<lol_html::Selector>()?;
    let queue = Rc::new(RefCell::new(Vec::new()));
    let shared = Rc::clone(&queue);
    let handler = move |el: &mut lol_html::html_content::Element| {
        record_open(el, &shared, &mut shared.borrow_mut(), &ignore_attr, &link_attr);
        Ok(())
    };
    let handlers = lol_html::ElementContentHandlers::default().element(handler);
    let matched = vec![(Cow::Owned(selector), handlers)];
    let settings = lol_html::Settings { element_content_handlers: matched, ..Default::default() };
    let sink: fn(&[u8]) = discard;
    Ok(ElementStream { rewriter: lol_html::HtmlRewriter::new(settings, sink), queue })
}

/// Hands a chunk to `HtmlRewriter::write` and empties the queue with
/// `RefCell::take`. What comes back are the events that were found while
/// the chunk was written, and the stream if the chunk was taken: a rewriter
/// that failed must not be written to again. Both are what `lol_html` makes
/// of the selector, the attribute names and the chunks written so far.
#[verifier::external_body]
fn feed(stream: ElementStream, data: &[u8]) -> (taken: (
    Vec<ElementEvent>,
    Result<ElementStream, lol_html::errors::RewritingError>,
))
    ensures
        event_views(taken.0@) == chunk_events(
            stream_selector(stream),
            stream_ignore_attr(stream),
            stream_link_attr(stream),
            stream_chunks(stream).push(data@),
        ),
        taken.1 is Err <==> chunk_fails(stream_selector(stream), stream_chunks(stream).push(data@)),
        taken.1 matches Ok(next) ==> same_setup(next, stream) && stream_chunks(next)
            == stream_chunks(stream).push(data@),
{
    let mut stream = stream;
    let outcome = stream.rewriter.write(data);
    (stream.queue.take(), outcome.map(|_| stream))
}

/// The tokenizer's own description of a failure.
#[verifier::external_body]
fn failure_text(error: &lol_html::errors::RewritingError) -> String {
    format!("{error}")
}

/// The rewriter's output is dropped.
fn discard(chunk: &[u8]) {
}

/// Records an element that opened: one `Open` is put behind the events that
/// wait in `queue`. It holds what the tokenizer says of the element: its tag
/// name, whether it carries the ignore attribute, its target, and whether
/// its end will be recorded, which is asked for here. `shared` is the cell
/// that `queue` was borrowed from; the handler for the end of the element
/// keeps it.
fn record_open(
    el: &mut lol_html::html_content::Element,
    shared: &Rc<RefCell<Vec<ElementEvent>>>,
    queue: &mut Vec<ElementEvent>,
    ignore_attr: &str,
    link_attr: &str,
)
    ensures
        records_one_open(old(queue)@, final(queue)@),
{
    let tag_name = element_tag_name(el);
    let ignored = element_has_attribute(el, ignore_attr);
    let href = element_attribute(el, link_attr);
    let closes = watch_end_tag(el, shared);
    let ghost before = queue@;
    record_start(queue, ElementStart { tag_name, ignored, href, closes });
    assert(queue@.drop_last() =~= before);
}

/// Records what was read of an element that opened: one `Open` that holds
/// it is put behind the events that wait in the queue.
fn record_start(queue: &mut Vec<ElementEvent>, start: ElementStart)
    ensures
        final(queue)@ == old(queue)@.push(ElementEvent::Open(start)),
{
    queue.push(ElementEvent::Open(start));
}

/// Records the end of an element: one `Close` is put behind the events that
/// wait in the queue.
fn record_close(queue: &mut Vec<ElementEvent>)
    ensures
        final(queue)@ == old(queue)@.push(ElementEvent::Close),
{
    queue.push(ElementEvent::Close);
}

/// Whether `after` is `before` with one event for an opening element behind
/// it: nothing that waited is lost, moved or changed.
pub open spec fn records_one_open(before: Seq<ElementEvent>, after: Seq<ElementEvent>) -> bool {
    &&& after.len() == before.len() + 1
    &&& after.drop_last() == before
    &&& after.last() is Open
}

/// Why a chunk was not taken.
#[derive(Debug)]
pub(crate) enum FeedError {
    /// The tokenizer gave up on the document; its description is attached.
    Rewriting(String),
    /// The tokenizer gave up on an earlier chunk.
    Stopped,
}

/// The tokenizer of one document, with a record of how it was set up and
/// of the chunks that were handed to it.
pub(crate) struct MarkupSource {
    stream: Option<ElementStream>,
    selector: Ghost<Seq<char>>,
    ignore_attr: Ghost<Seq<char>>,
    link_attr: Ghost<Seq<char>>,
    written: Ghost<Seq<Seq<u8>>>,
}

impl MarkupSource {
    /// Whether the tokenizer still takes input.
    pub closed spec fn running(&self) -> bool {
        self.stream is Some
    }

    /// The selector of the elements that are reported.
    pub closed spec fn selector(&self) -> Seq<char> {
        self.selector@
    }

    /// The name of the attribute that marks an element to be ignored.
    pub closed spec fn ignore_attr(&self) -> Seq<char> {
        self.ignore_attr@
    }

    /// The name of the attribute that holds the target of a link.
    pub closed spec fn link_attr(&self) -> Seq<char> {
        self.link_attr@
    }

    /// The chunks that were handed to the tokenizer while it took input.
    pub closed spec fn written(&self) -> Seq<Seq<u8>> {
        self.written@
    }

    /// The record agrees with the tokenizer.
    pub closed spec fn wf(&self) -> bool {
        self.stream matches Some(stream) ==> {
            &&& stream_selector(stream) == self.selector@
            &&& stream_ignore_attr(stream) == self.ignore_attr@
            &&& stream_link_attr(stream) == self.link_attr@
            &&& stream_chunks(stream) == self.written@
        }
    }

    /// The events that the tokenizer finds in `chunk` if it is written next.
    pub open spec fn events_of(&self, chunk: Seq<u8>) -> Seq<ElementEventView> {
        chunk_events(
            self.selector(),
            self.ignore_attr(),
            self.link_attr(),
            self.written().push(chunk),
        )
    }

    /// Whether the tokenizer gives up on `chunk` if it is written next.
    pub open spec fn fails_on(&self, chunk: Seq<u8>) -> bool {
        chunk_fails(self.selector(), self.written().push(chunk))
    }

    /// Starts a tokenizer that reports the elements matching `selector`.
    /// For each it reads whether `ignore_attr` is present and the value of
    /// `link_attr`.
    pub(crate) fn open(selector: &str, ignore_attr: &str, link_attr: &str) -> (source: Result<
        MarkupSource,
        lol_html::errors::SelectorError,
    >)
        ensures
            source is Ok <==> selector_parses(selector@),
            source matches Ok(s) ==> {
                &&& s.wf()
                &&& s.running()
                &&& s.selector() == selector@
                &&& s.ignore_attr() == ignore_attr@
                &&& s.link_attr() == link_attr@
                &&& s.written() == Seq::<Seq<u8>>::empty()
            },
    {
        match open_stream(selector, String::from_str(ignore_attr), String::from_str(link_attr)) {
            Ok(stream) => {
                assert(stream_chunks(stream) =~= Seq::<Seq<u8>>::empty());
                Ok(
                    MarkupSource {
                        stream: Some(stream),
                        selector: Ghost(selector@),
                        ignore_attr: Ghost(ignore_attr@),
                        link_attr: Ghost(link_attr@),
                        written: Ghost(Seq::empty()),
                    },
                )
            },
            Err(e) => Err(e),
        }
    }

    /// Hands the next chunk of the document to the tokenizer and returns the
    /// events that it found, with the failure if it gave up. After a failure
    /// the tokenizer takes no more input, and a chunk that is handed to it
    /// then is not looked at.
    pub(crate) fn read(&mut self, data: &[u8]) -> (found: (Vec<ElementEvent>, Result<(), FeedError>))
        requires
            old(self).wf(),
        ensures
            final(self).wf(),
            final(self).selector() == old(self).selector(),
            final(self).ignore_attr() == old(self).ignore_attr(),
            final(self).link_attr() == old(self).link_attr(),
            found.1 matches Err(FeedError::Stopped) <==> !old(self).running(),
            !old(self).running() ==> found.0@.len() == 0 && !final(self).running()
                && final(self).written() == old(self).written(),
            old(self).running() ==> final(self).written() == old(self).written().push(data@)
                && event_views(found.0@) == old(self).events_of(data@),
            found.1 matches Err(FeedError::Rewriting(_)) <==> old(self).running()
                && old(self).fails_on(data@),
            final(self).running() <==> old(self).running() && !old(self).fails_on(data@),
    {
        match self.stream.take() {
            None => (Vec::new(), Err(FeedError::Stopped)),
            Some(stream) => {
                let taken = feed(stream, data);
                proof {
                    self.written@ = self.written@.push(data@);
                }
                let outcome = match taken.1 {
                    Ok(stream) => {
                        self.stream = Some(stream);
                        Ok(())
                    },
                    Err(e) => Err(FeedError::Rewriting(failure_text(&e))),
                };
                (taken.0, outcome)
            },
        }
    }
}

} // verus!
