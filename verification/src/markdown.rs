//! Markdown as the engine reads it: where code stands, and which events a
//! text gives.

use crate::sort::views;
use crate::text::{byte_len, chars_of, width_of};
use pulldown_cmark::{Event, LinkType, Options, Parser, Tag, TagEnd};
use pulldown_cmark::Event::{End, Start};
use vstd::prelude::*;

verus! {

/// What an event of a markdown text is, as far as the engine tells events
/// apart.
#[derive(Debug)]
pub enum Mark {
    Text(String),
    /// Raw HTML, in a block or inline.
    Html(String),
    ImageStart(String),
    ImageEnd,
    LinkStart(String),
    LinkEnd,
    /// An inline code span.
    Code,
    /// The start of a code block; the range of the event is the whole block.
    CodeBlock,
    Other,
}

/// An event with the bytes of the text that it covers.
#[derive(Debug)]
pub struct MdEvent {
    pub mark: Mark,
    pub from: usize,
    pub to: usize,
}

/// What an event is.
pub enum MarkView {
    Text(Seq<char>),
    Html(Seq<char>),
    ImageStart(Seq<char>),
    ImageEnd,
    LinkStart(Seq<char>),
    LinkEnd,
    Code,
    CodeBlock,
    Other,
}

/// An event with the bytes that it covers.
pub struct EventView {
    pub mark: MarkView,
    pub from: nat,
    pub to: nat,
}

impl View for Mark {
    type V = MarkView;

    open spec fn view(&self) -> MarkView {
        match *self {
            Mark::Text(s) => MarkView::Text(s@),
            Mark::Html(s) => MarkView::Html(s@),
            Mark::ImageStart(s) => MarkView::ImageStart(s@),
            Mark::ImageEnd => MarkView::ImageEnd,
            Mark::LinkStart(s) => MarkView::LinkStart(s@),
            Mark::LinkEnd => MarkView::LinkEnd,
            Mark::Code => MarkView::Code,
            Mark::CodeBlock => MarkView::CodeBlock,
            Mark::Other => MarkView::Other,
        }
    }
}

impl View for MdEvent {
    type V = EventView;

    open spec fn view(&self) -> EventView {
        EventView { mark: self.mark@, from: self.from as nat, to: self.to as nat }
    }
}

/// The dialect in which the engine reads: CommonMark with tables. The number
/// is a set of `pulldown_cmark::Options` bits.
pub const READER_DIALECT: u32 = 0b0010;

/// The dialect in which the engine renders: the reader's, and strikethrough.
pub const RENDER_DIALECT: u32 = 0b1010;

/// The events of a markdown text in a dialect.
pub uninterp spec fn markdown_events(md: Seq<char>, dialect: u32) -> Seq<EventView>;

/// `pulldown_cmark::Parser`, through `into_offset_iter`: the events of `md`
/// with the byte ranges that they cover. Which events a text gives is left to
/// the name `markdown_events`.
#[verifier::external_body]
pub(crate) fn parse_markdown(md: &str, dialect: u32) -> (r: Vec<MdEvent>)
    ensures
        views(r@) == markdown_events(md@, dialect),
{
    let parser = Parser::new_ext(md, Options::from_bits_truncate(dialect));
    parser.into_offset_iter().map(|(event, at)| MdEvent { from: at.start, to: at.end, mark: match event {
        Event::Text(t) => Mark::Text(t.into_string()),
        Event::Html(t) | Event::InlineHtml(t) => Mark::Html(t.into_string()),
        Start(Tag::Image { dest_url, .. }) => Mark::ImageStart(dest_url.into_string()),
        End(TagEnd::Image) => Mark::ImageEnd,
        Start(Tag::Link { dest_url, .. }) => Mark::LinkStart(dest_url.into_string()),
        End(TagEnd::Link) => Mark::LinkEnd,
        Event::Code(_) => Mark::Code,
        Start(Tag::CodeBlock(_)) => Mark::CodeBlock,
        _ => Mark::Other,
    } }).collect()
}

/// What stands in a rendered text: an event of the text itself, or text and
/// links of the engine's own.
#[derive(Debug)]
pub enum HtmlItem {
    /// The event at a position of the text's events.
    Keep(usize),
    Text(String),
    LinkStart(String),
    LinkEnd,
}

/// What stands in a rendered text.
pub enum ItemView {
    Keep(nat),
    Text(Seq<char>),
    LinkStart(Seq<char>),
    LinkEnd,
}

impl View for HtmlItem {
    type V = ItemView;

    open spec fn view(&self) -> ItemView {
        match *self {
            HtmlItem::Keep(i) => ItemView::Keep(i as nat),
            HtmlItem::Text(s) => ItemView::Text(s@),
            HtmlItem::LinkStart(s) => ItemView::LinkStart(s@),
            HtmlItem::LinkEnd => ItemView::LinkEnd,
        }
    }
}

/// The HTML of a sequence of items over the events of `md`.
pub uninterp spec fn html_of(md: Seq<char>, dialect: u32, items: Seq<ItemView>) -> Seq<char>;

/// `pulldown_cmark::html::push_html` on the events that the items stand for:
/// a kept event is the one at its position among the events of `md`, a link
/// start is an inline link without a title. What HTML comes out is left to
/// the name `html_of`.
#[verifier::external_body]
pub(crate) fn push_html(md: &str, dialect: u32, items: &Vec<HtmlItem>) -> (r: String)
    requires
        forall|k: int|
            0 <= k < items@.len() ==> ((#[trigger] items@[k]) matches HtmlItem::Keep(i) ==> i
                < markdown_events(md@, dialect).len()),
    ensures
        r@ == html_of(md@, dialect, views(items@)),
{
    let options = Options::from_bits_truncate(dialect);
    let events: Vec<Event> = Parser::new_ext(md, options).collect();
    let mut html = String::new();
    let stream = items.iter().map(|item| match item {
        HtmlItem::Keep(i) => events[*i].clone(),
        HtmlItem::Text(t) => Event::Text(t.clone().into()),
        HtmlItem::LinkStart(d) => Start(Tag::Link { link_type: LinkType::Inline, dest_url:
            d.clone().into(), title: "".into(), id: "".into() }),
        HtmlItem::LinkEnd => End(TagEnd::Link),
    });
    pulldown_cmark::html::push_html(&mut html, stream);
    html
}

// ---------------------------------------------------------------------
// Code
// ---------------------------------------------------------------------

/// Whether the byte `pos` of a text stands in code.
pub open spec fn in_code(events: Seq<EventView>, pos: nat) -> bool {
    exists|k: int|
        0 <= k < events.len() && ((#[trigger] events[k]).mark is Code || events[k].mark
            is CodeBlock) && events[k].from <= pos < events[k].to
}

/// A text with a blank in the place of every character of code.
pub open spec fn masked(body: Seq<char>, events: Seq<EventView>) -> Seq<char> {
    Seq::new(
        body.len(),
        |i: int|
            if in_code(events, byte_len(body.take(i))) {
                ' '
            } else {
                body[i]
            },
    )
}

/// Whether the byte `pos` of a text stands in code.
fn stands_in_code(events: &Vec<MdEvent>, pos: u128) -> (r: bool)
    ensures
        r == in_code(views(events@), pos as nat),
{
    let ghost all = views(events@);
    for k in 0..events.len()
        invariant
            all == views(events@),
            forall|j: int|
                0 <= j < k ==> !(((#[trigger] all[j]).mark is Code || all[j].mark is CodeBlock)
                    && all[j].from <= pos < all[j].to),
    {
        let e = &events[k];
        assert(all[k as int] == e@);
        let is_code = matches!(e.mark, Mark::Code | Mark::CodeBlock);
        if is_code && e.from as u128 <= pos && pos < e.to as u128 {
            return true;
        }
    }
    false
}

/// A text with a blank in the place of every character of code, given the
/// events of the text.
pub fn mask_code(body: &str, events: &Vec<MdEvent>) -> (r: Vec<char>)
    ensures
        r@ == masked(body@, views(events@)),
{
    let x = chars_of(body);
    let n: usize = x.len();
    let mut out: Vec<char> = Vec::new();
    let mut pos: u128 = 0;
    assert(x@.take(0) =~= Seq::<char>::empty());
    for i in 0..n
        invariant
            x@ == body@,
            n == x@.len(),
            pos as nat == byte_len(x@.take(i as int)),
            pos <= 4 * i,
            out@ == masked(body@, views(events@)).take(i as int),
    {
        proof {
            assert(x@.take(i + 1).drop_last() =~= x@.take(i as int));
        }
        let c = if stands_in_code(events, pos) {
            ' '
        } else {
            x[i]
        };
        out.push(c);
        assert(masked(body@, views(events@)).take(i + 1) =~= masked(body@, views(events@)).take(
            i as int,
        ).push(c));
        pos = pos + width_of(x[i]) as u128;
    }
    assert(masked(body@, views(events@)).take(n as int) =~= masked(body@, views(events@)));
    out
}

/// The view of a text in which code is blanked out, as every reader of links
/// scans it.
pub open spec fn code_masked(body: Seq<char>) -> Seq<char> {
    masked(body, markdown_events(body, READER_DIALECT))
}

/// A text with a blank in the place of every character of a code block or
/// code span, character by character as long as the text itself.
pub fn mask_code_blocks_and_spans(body: &str) -> (r: Vec<char>)
    ensures
        r@ == code_masked(body@),
{
    mask_code(body, &parse_markdown(body, READER_DIALECT))
}

} // verus!
