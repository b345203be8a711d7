//! One mem as one self-contained HTML file: no request is made when it is
//! opened, raw HTML of the mem is shown as text, and every anchor in it leads
//! somewhere.

use crate::engine::{says_unmounted, schema_of, Engine};
use crate::entity::{entity_of, joined_id, Entity, EntityId, MetadataValue, Relationship};
use crate::error::EngineError;
use crate::markdown::{
    code_masked, html_of, markdown_events, mask_code_blocks_and_spans, parse_markdown, push_html,
    EventView, HtmlItem, ItemView, Mark, MarkView, MdEvent, RENDER_DIALECT,
};
use crate::schema::{Schema, SectionDef};
use crate::sort::{pair_less, sorted, stable_sort, views, Ranked};
use crate::text::{
    before, begins, chars_of, contains, decimal, decimal_of, find, find_chars, holds, lex_less,
    listed, opt_text, own, same, slice_of, starts, strip_prefix, texts, trim, trimmed,
};
use crate::workspace::{MemConfig, MountCapability};
use std::sync::Arc;
use vstd::prelude::*;
use vstd::utf8::{encode_utf8, valid_utf8};

verus! {

// ---------------------------------------------------------------------
// Escaping
// ---------------------------------------------------------------------

/// A character in HTML text and attributes.
pub open spec fn esc_char(c: char) -> Seq<char> {
    if c == '&' {
        "&amp;"@
    } else if c == '<' {
        "&lt;"@
    } else if c == '>' {
        "&gt;"@
    } else if c == '"' {
        "&quot;"@
    } else {
        seq![c]
    }
}

/// A text in HTML text and attributes.
pub open spec fn escaped(s: Seq<char>) -> Seq<char>
    decreases s.len(),
{
    if s.len() == 0 {
        Seq::empty()
    } else {
        escaped(s.drop_last()) + esc_char(s.last())
    }
}

/// A text in HTML text and attributes.
pub fn esc(s: &str) -> (r: String)
    ensures
        r@ == escaped(s@),
{
    let x = chars_of(s);
    let mut out = String::new();
    for i in 0..x.len()
        invariant
            x@ == s@,
            out@ == escaped(x@.take(i as int)),
    {
        assert(x@.take(i + 1).drop_last() =~= x@.take(i as int));
        let c = x[i];
        if c == '&' {
            out.append("&amp;");
        } else if c == '<' {
            out.append("&lt;");
        } else if c == '>' {
            out.append("&gt;");
        } else if c == '"' {
            out.append("&quot;");
        } else {
            out.push(c);
            assert(out@ =~= escaped(x@.take(i as int)) + seq![c]);
        }
    }
    assert(x@.take(x@.len() as int) =~= x@);
    out
}

/// Whether a text can neither open nor close markup or an attribute.
pub open spec fn is_inert(s: Seq<char>) -> bool {
    forall|i: int| 0 <= i < s.len() ==> (#[trigger] s[i]) != '<' && s[i] != '>' && s[i] != '"'
}

/// No text leaves escaping with a `<`, a `>` or a `"` in it.
pub proof fn law_escaped_is_inert(s: Seq<char>)
    ensures
        is_inert(escaped(s)),
    decreases s.len(),
{
    if s.len() > 0 {
        law_escaped_is_inert(s.drop_last());
        reveal_strlit("&amp;");
        reveal_strlit("&lt;");
        reveal_strlit("&gt;");
        reveal_strlit("&quot;");
    }
}

// ---------------------------------------------------------------------
// Wiki-links
// ---------------------------------------------------------------------

/// `[[`.
pub open spec fn link_open() -> Seq<char> {
    seq!['[', '[']
}

/// `]]`.
pub open spec fn link_close() -> Seq<char> {
    seq![']', ']']
}

/// The id that a link target names: the target itself where it is a full id,
/// the mem's entity of that path otherwise.
pub open spec fn full_id(target: Seq<char>, mem: Seq<char>) -> Seq<char> {
    if contains(target, "--"@) {
        target
    } else {
        joined_id(mem, target)
    }
}

/// What stands for a link in an export: an anchor where the target is
/// exported, else a marked text without one.
pub open spec fn link_text(target: Seq<char>, mem: Seq<char>, ids: Seq<Seq<char>>) -> Seq<char> {
    let id = full_id(target, mem);
    if ids.contains(id) {
        "["@ + target + "](#"@ + id + ")"@
    } else if starts(id, joined_id(mem, ""@)) {
        target + " *(unresolved)*"@
    } else {
        id + " *(other mem)*"@
    }
}

/// `body` from `cursor` on with its links resolved. Links are those of
/// `mask`, a view of the same length in which code is blanked out; every
/// character outside them is that of `body`.
pub open spec fn resolved_from(
    body: Seq<char>,
    mask: Seq<char>,
    mem: Seq<char>,
    ids: Seq<Seq<char>>,
    cursor: int,
) -> Seq<char>
    decreases body.len() - cursor,
{
    let rest = body.subrange(cursor, body.len() as int);
    match find(mask, link_open(), cursor) {
        None => rest,
        Some(start) => match find(mask, link_close(), start + 2) {
            None => rest,
            Some(end) => if cursor <= start && start + 2 <= end && end + 2 <= body.len() {
                body.subrange(cursor, start) + link_text(
                    body.subrange(start + 2, end),
                    mem,
                    ids,
                ) + resolved_from(body, mask, mem, ids, end + 2)
            } else {
                rest
            },
        },
    }
}

/// Resolve the wiki-links of `body`, given the view of it in which code is
/// blanked out.
pub fn resolve_masked(body: &str, mask: &Vec<char>, mem: &str, ids: &Vec<String>) -> (r: String)
    requires
        mask@.len() == body@.len(),
    ensures
        r@ == resolved_from(body@, mask@, mem@, texts(ids@), 0),
{
    let x = chars_of(body);
    let n: usize = x.len();
    let open: Vec<char> = vec!['[', '['];
    let close: Vec<char> = vec![']', ']'];
    assert(open@ =~= link_open());
    assert(close@ =~= link_close());
    let own_prefix = own(mem).concat("--").concat("");
    assert(own_prefix@ == joined_id(mem@, ""@));
    let mut out = String::new();
    let mut cursor: usize = 0;
    assert(out@ + resolved_from(x@, mask@, mem@, texts(ids@), 0) =~= resolved_from(
        x@,
        mask@,
        mem@,
        texts(ids@),
        0,
    ));
    loop
        invariant
            x@ == body@,
            n == x@.len(),
            mask@.len() == n,
            cursor <= n,
            open@ == link_open(),
            close@ == link_close(),
            own_prefix@ == joined_id(mem@, ""@),
            resolved_from(body@, mask@, mem@, texts(ids@), 0) == out@ + resolved_from(
                x@,
                mask@,
                mem@,
                texts(ids@),
                cursor as int,
            ),
        ensures
            cursor <= n,
            x@ == body@,
            n == x@.len(),
            resolved_from(body@, mask@, mem@, texts(ids@), 0) == out@ + x@.subrange(
                cursor as int,
                n as int,
            ),
        decreases n - cursor,
    {
        let start = match find_chars(mask, &open, cursor) {
            Some(i) => i,
            None => {
                break;
            },
        };
        let end = match find_chars(mask, &close, start + 2) {
            Some(i) => i,
            None => {
                break;
            },
        };
        let target = slice_of(&x, start + 2, end);
        let id = if holds(&target, "--") {
            target.clone()
        } else {
            own(mem).concat("--").concat(&target)
        };
        let piece = if listed(ids, &id) {
            "[".to_owned().concat(&target).concat("](#").concat(&id).concat(")")
        } else if begins(&id, &own_prefix) {
            target.clone().concat(" *(unresolved)*")
        } else {
            id.concat(" *(other mem)*")
        };
        let lead = slice_of(&x, cursor, start);
        let ghost before = out@;
        out.append(&lead);
        out.append(&piece);
        proof {
            let tail = resolved_from(x@, mask@, mem@, texts(ids@), end + 2);
            assert(piece@ == link_text(target@, mem@, texts(ids@)));
            assert(before + (lead@ + piece@ + tail) =~= out@ + tail);
        }
        cursor = end + 2;
    }
    let tail = slice_of(&x, cursor, n);
    out.append(&tail);
    out
}

/// `body` with its wiki-links resolved for an export of the entities `ids`.
pub open spec fn resolved(body: Seq<char>, mem: Seq<char>, ids: Seq<Seq<char>>) -> Seq<char> {
    resolved_from(body, code_masked(body), mem, ids, 0)
}

/// Resolve the wiki-links of a section body before it is rendered: a target
/// that is exported becomes a link to its anchor, any other a marked text.
/// What stands in code stays as it is.
pub fn resolve_wiki_links(body: &str, mem: &str, ids: &Vec<String>) -> (r: String)
    ensures
        r@ == resolved(body@, mem@, texts(ids@)),
{
    let mask = mask_code_blocks_and_spans(body);
    resolve_masked(body, &mask, mem, ids)
}

/// A body whose prose opens no wiki-link comes out as it is, whatever its
/// code holds.
pub proof fn law_no_link_no_change(
    body: Seq<char>,
    mask: Seq<char>,
    mem: Seq<char>,
    ids: Seq<Seq<char>>,
)
    requires
        !contains(mask, link_open()) || !contains(mask, link_close()),
    ensures
        resolved_from(body, mask, mem, ids, 0) == body,
{
    assert(body.subrange(0, body.len() as int) =~= body);
    crate::text::lemma_find(mask, link_open(), 0);
    match find(mask, link_open(), 0) {
        Some(start) => {
            crate::text::lemma_find(mask, link_close(), 0);
            crate::text::lemma_find(mask, link_close(), start + 2);
        },
        None => {},
    }
}

// ---------------------------------------------------------------------
// Link destinations
// ---------------------------------------------------------------------

/// The value of a hexadecimal digit.
pub open spec fn hex_value(b: u8) -> Option<int> {
    if 0x30 <= b <= 0x39 {
        Some(b - 0x30)
    } else if 0x41 <= b <= 0x46 {
        Some(b - 0x41 + 10)
    } else if 0x61 <= b <= 0x66 {
        Some(b - 0x61 + 10)
    } else {
        None
    }
}

/// The value of a hexadecimal digit.
fn hex_value_of(b: u8) -> (r: Option<u8>)
    ensures
        match r {
            Some(v) => hex_value(b) == Some(v as int) && v < 16,
            None => hex_value(b) is None,
        },
{
    if 0x30 <= b && b <= 0x39 {
        Some(b - 0x30)
    } else if 0x41 <= b && b <= 0x46 {
        Some(b - 0x41 + 10)
    } else if 0x61 <= b && b <= 0x66 {
        Some(b - 0x61 + 10)
    } else {
        None
    }
}

/// Bytes from `i` on with each `%XX` taken for the byte that it writes.
pub open spec fn percent_bytes(b: Seq<u8>, i: int) -> Seq<u8>
    decreases b.len() - i,
{
    if i < 0 || i >= b.len() {
        Seq::empty()
    } else if b[i] == 0x25 && i + 2 < b.len() && hex_value(b[i + 1]) is Some && hex_value(
        b[i + 2],
    ) is Some {
        seq![(hex_value(b[i + 1])->0 * 16 + hex_value(b[i + 2])->0) as u8] + percent_bytes(b, i + 3)
    } else {
        seq![b[i]] + percent_bytes(b, i + 1)
    }
}

/// The text of bytes, with a replacement character for what is no UTF-8.
pub uninterp spec fn utf8_lossy(bytes: Seq<u8>) -> Seq<char>;

/// `String::from_utf8_lossy`: valid UTF-8 gives the text that it encodes.
/// Where the replacement characters stand is left to the name `utf8_lossy`.
#[verifier::external_body]
fn lossy_text(bytes: &Vec<u8>) -> (r: String)
    ensures
        r@ == utf8_lossy(bytes@),
        valid_utf8(bytes@) ==> encode_utf8(r@) == bytes@,
{
    String::from_utf8_lossy(bytes).into_owned()
}

/// A fragment with its percent escapes decoded.
pub open spec fn percent_decoded(s: Seq<char>) -> Seq<char> {
    utf8_lossy(percent_bytes(encode_utf8(s), 0))
}

/// Bytes with each `%XX` taken for the byte that it writes.
pub fn percent_decode_bytes(b: &[u8]) -> (r: Vec<u8>)
    ensures
        r@ == percent_bytes(b@, 0),
{
    let n: usize = b.len();
    let mut out: Vec<u8> = Vec::new();
    let mut i: usize = 0;
    assert(out@ + percent_bytes(b@, 0) =~= percent_bytes(b@, 0));
    while i < n
        invariant
            n == b@.len(),
            i <= n,
            percent_bytes(b@, 0) == out@ + percent_bytes(b@, i as int),
        decreases n - i,
    {
        let ghost before = out@;
        if b[i] == 0x25 && n - i > 2 {
            if let (Some(h), Some(l)) = (hex_value_of(b[i + 1]), hex_value_of(b[i + 2])) {
                out.push(h * 16 + l);
                assert(before + percent_bytes(b@, i as int) =~= out@ + percent_bytes(b@, i + 3));
                i = i + 3;
                continue;
            }
        }
        out.push(b[i]);
        assert(before + percent_bytes(b@, i as int) =~= out@ + percent_bytes(b@, i + 1));
        i = i + 1;
    }
    assert(out@ + percent_bytes(b@, i as int) =~= out@);
    out
}

/// Decode the percent escapes of a fragment, so that it compares with raw
/// ids.
pub fn percent_decode(s: &str) -> (r: String)
    ensures
        r@ == percent_decoded(s@),
{
    lossy_text(&percent_decode_bytes(s.as_bytes()))
}

/// A text with its ASCII capitals in lower case.
pub open spec fn ascii_lower(s: Seq<char>) -> Seq<char> {
    s.map_values(|c: char| lower_char(c))
}

/// A character in lower case, where it is an ASCII capital.
pub open spec fn lower_char(c: char) -> char {
    if 'A' <= c <= 'Z' {
        (c as u32 + 32) as char
    } else {
        c
    }
}

/// A text with its ASCII capitals in lower case.
fn ascii_lower_of(s: &str) -> (r: String)
    ensures
        r@ == ascii_lower(s@),
{
    let x = chars_of(s);
    let mut out = String::new();
    for i in 0..x.len()
        invariant
            x@ == s@,
            out@ == ascii_lower(x@).take(i as int),
    {
        let c = x[i];
        let l: char = if 'A' <= c && c <= 'Z' {
            (c as u8 + 32) as char
        } else {
            c
        };
        out.push(l);
        assert(ascii_lower(x@).take(i + 1) =~= ascii_lower(x@).take(i as int).push(l));
    }
    assert(ascii_lower(x@).take(x@.len() as int) =~= ascii_lower(x@));
    out
}

/// Whether a destination may be a link in the export: a passive web link, or
/// a fragment that names an exported entity. `fragment` is the decoded
/// fragment of a destination that starts with `#`.
pub open spec fn dest_allowed(dest: Seq<char>, fragment: Seq<char>, ids: Seq<Seq<char>>) -> bool {
    if starts(dest, "#"@) {
        ids.contains(fragment)
    } else {
        let lower = ascii_lower(trim(dest));
        starts(lower, "http://"@) || starts(lower, "https://"@) || starts(lower, "mailto:"@)
    }
}

/// Whether a destination may be a link in the export.
pub open spec fn allowed(dest: Seq<char>, ids: Seq<Seq<char>>) -> bool {
    dest_allowed(dest, percent_decoded(dest.skip("#"@.len() as int)), ids)
}

/// Whether a destination that is no fragment may be a link in the export.
fn scheme_allowed(dest: &str) -> (r: bool)
    ensures
        forall|fragment: Seq<char>, ids: Seq<Seq<char>>|
            !starts(dest@, "#"@) ==> r == #[trigger] dest_allowed(dest@, fragment, ids),
{
    let lower = ascii_lower_of(&trimmed(dest));
    begins(&lower, "http://") || begins(&lower, "https://") || begins(&lower, "mailto:")
}

/// Whether a destination may be a clickable link: `http`, `https` and
/// `mailto` links, and fragments that name an exported entity. Every other
/// scheme is shown as text.
pub fn link_dest_allowed(dest: &str, ids: &Vec<String>) -> (r: bool)
    ensures
        r == allowed(dest@, texts(ids@)),
{
    match strip_prefix(dest, "#") {
        Some(fragment) => listed(ids, &percent_decode(&fragment)),
        None => scheme_allowed(dest),
    }
}

// ---------------------------------------------------------------------
// Sanitised markdown
// ---------------------------------------------------------------------

/// How far the sanitiser has come.
pub struct Cleaning {
    pub out: Seq<ItemView>,
    /// The destination and the text of the image that is being read.
    pub image: Option<(Seq<char>, Seq<char>)>,
    /// The links that are open, the innermost last: of one that is taken out
    /// its destination, of one that is kept nothing.
    pub open: Seq<Option<Seq<char>>>,
}

/// The label of an image that is shown as a link.
pub open spec fn image_label(url: Seq<char>, alt: Seq<char>) -> Seq<char> {
    if trim(alt).len() == 0 {
        "image: "@ + url
    } else {
        "image: "@ + alt + " ("@ + url + ")"@
    }
}

/// What stands for an image: a passive link, or text where its destination is
/// not allowed.
pub open spec fn image_items(url: Seq<char>, alt: Seq<char>, ids: Seq<Seq<char>>) -> Seq<ItemView> {
    let label = image_label(url, alt);
    if allowed(url, ids) {
        seq![ItemView::LinkStart(url), ItemView::Text(label), ItemView::LinkEnd]
    } else {
        seq![ItemView::Text("["@ + label + "]"@)]
    }
}

/// One event further. Raw HTML becomes text, an image its label, a link to a
/// destination that is not allowed its text with the destination behind it;
/// everything else is kept. A link that starts inside another, which an
/// autolink does, is put to the same test, and an end belongs to the innermost
/// link that is open.
pub open spec fn clean_step(
    st: Cleaning,
    event: EventView,
    at: nat,
    ids: Seq<Seq<char>>,
) -> Cleaning {
    match st.image {
        Some(img) => match event.mark {
            MarkView::ImageEnd => Cleaning {
                out: st.out + image_items(img.0, img.1, ids),
                image: None,
                ..st
            },
            MarkView::Text(t) => Cleaning { image: Some((img.0, img.1 + t)), ..st },
            _ => st,
        },
        None => match event.mark {
            MarkView::Html(s) => Cleaning { out: st.out.push(ItemView::Text(s)), ..st },
            MarkView::ImageStart(url) => Cleaning { image: Some((url, Seq::empty())), ..st },
            MarkView::LinkStart(dest) => if allowed(dest, ids) {
                Cleaning {
                    out: st.out.push(ItemView::LinkStart(dest)),
                    open: st.open.push(None),
                    ..st
                }
            } else {
                Cleaning { open: st.open.push(Some(dest)), ..st }
            },
            MarkView::LinkEnd => if st.open.len() == 0 {
                Cleaning { out: st.out.push(ItemView::Keep(at)), ..st }
            } else {
                Cleaning {
                    out: st.out.push(
                        match st.open.last() {
                            Some(dest) => ItemView::Text(removal_note(dest)),
                            None => ItemView::Keep(at),
                        },
                    ),
                    open: st.open.drop_last(),
                    ..st
                }
            },
            _ => Cleaning { out: st.out.push(ItemView::Keep(at)), ..st },
        },
    }
}

/// What is left of a link that was taken out, behind its text.
pub open spec fn removal_note(dest: Seq<char>) -> Seq<char> {
    " ("@ + dest + " — link removed)"@
}

/// The sanitiser after the first `n` events.
pub open spec fn cleaned(events: Seq<EventView>, n: nat, ids: Seq<Seq<char>>) -> Cleaning
    decreases n,
{
    if n == 0 {
        Cleaning { out: Seq::empty(), image: None, open: Seq::empty() }
    } else {
        let m = (n - 1) as nat;
        clean_step(cleaned(events, m, ids), events[m as int], m, ids)
    }
}

/// What a list of events is rendered as.
pub open spec fn safe_items(events: Seq<EventView>, ids: Seq<Seq<char>>) -> Seq<ItemView> {
    cleaned(events, events.len(), ids).out
}

/// The links that are open, as they stand in the contract.
pub open spec fn open_links(open: Seq<Option<String>>) -> Seq<Option<Seq<char>>> {
    open.map_values(|d: Option<String>| opt_text(d))
}

/// Put the items that stand for an image behind `out`.
fn push_image(out: &mut Vec<HtmlItem>, url: &str, alt: &str, ids: &Vec<String>)
    ensures
        views(final(out)@) == views(old(out)@) + image_items(url@, alt@, texts(ids@)),
        forall|k: int|
            old(out)@.len() <= k < final(out)@.len() ==> !(#[trigger] final(out)@[k] is Keep),
        forall|k: int|
            0 <= k < old(out)@.len() ==> #[trigger] final(out)@[k] == old(out)@[k],
{
    let ghost before = views(out@);
    let label = if trimmed(alt).as_str().is_empty() {
        "image: ".to_owned().concat(url)
    } else {
        "image: ".to_owned().concat(alt).concat(" (").concat(url).concat(")")
    };
    if link_dest_allowed(url, ids) {
        out.push(HtmlItem::LinkStart(own(url)));
        out.push(HtmlItem::Text(label));
        out.push(HtmlItem::LinkEnd);
    } else {
        out.push(HtmlItem::Text("[".to_owned().concat(&label).concat("]")));
    }
    assert(views(out@) =~= before + image_items(url@, alt@, texts(ids@)));
}

/// What a list of events is rendered as.
pub fn sanitise(events: &Vec<MdEvent>, ids: &Vec<String>) -> (r: Vec<HtmlItem>)
    ensures
        views(r@) == safe_items(views(events@), texts(ids@)),
        forall|k: int|
            0 <= k < r@.len() ==> ((#[trigger] r@[k]) matches HtmlItem::Keep(i) ==> i
                < events@.len()),
{
    let mut out: Vec<HtmlItem> = Vec::new();
    let mut image: Option<(String, String)> = None;
    let mut open: Vec<Option<String>> = Vec::new();
    let ghost evs = views(events@);
    let ghost idv = texts(ids@);
    assert(views(out@) =~= Seq::<ItemView>::empty());
    for i in 0..events.len()
        invariant
            evs == views(events@),
            idv == texts(ids@),
            forall|k: int|
                0 <= k < out@.len() ==> ((#[trigger] out@[k]) matches HtmlItem::Keep(j) ==> j
                    < events@.len()),
            ({
                let st = cleaned(evs, i as nat, idv);
                &&& st.out == views(out@)
                &&& st.image == (match image {
                    Some(m) => Some((m.0@, m.1@)),
                    None => None,
                })
                &&& st.open == open_links(open@)
            }),
    {
        let ghost st = cleaned(evs, i as nat, idv);
        let ghost done = views(out@);
        assert(evs[i as int] == events@[i as int]@);
        let event = &events[i];
        let mut current: Option<(String, String)> = None;
        std::mem::swap(&mut current, &mut image);
        match current {
            Some(img) => {
                let (url, mut alt) = img;
                match &event.mark {
                    Mark::ImageEnd => {
                        push_image(&mut out, &url, &alt, ids);
                    },
                    Mark::Text(t) => {
                        alt.append(t);
                        image = Some((url, alt));
                    },
                    _ => {
                        image = Some((url, alt));
                    },
                }
            },
            None => {
                match &event.mark {
                    Mark::Html(s) => {
                        out.push(HtmlItem::Text(s.clone()));
                        assert(views(out@) =~= done.push(ItemView::Text(s@)));
                    },
                    Mark::ImageStart(url) => {
                        image = Some((url.clone(), String::new()));
                    },
                    Mark::LinkStart(dest) => {
                        if link_dest_allowed(dest, ids) {
                            out.push(HtmlItem::LinkStart(dest.clone()));
                            open.push(None);
                            assert(views(out@) =~= done.push(ItemView::LinkStart(dest@)));
                            assert(open_links(open@) =~= st.open.push(None));
                        } else {
                            open.push(Some(dest.clone()));
                            assert(open_links(open@) =~= st.open.push(Some(dest@)));
                        }
                    },
                    Mark::LinkEnd => {
                        let last = open.pop();
                        proof {
                            if st.open.len() > 0 {
                                assert(open_links(open@) =~= st.open.drop_last());
                            } else {
                                assert(open_links(open@) =~= st.open);
                            }
                        }
                        match last {
                            Some(Some(d)) => {
                                let note = " (".to_owned().concat(&d).concat(" — link removed)");
                                out.push(HtmlItem::Text(note));
                                assert(views(out@) =~= done.push(ItemView::Text(note@)));
                            },
                            _ => {
                                out.push(HtmlItem::Keep(i));
                                assert(views(out@) =~= done.push(ItemView::Keep(i as nat)));
                            },
                        }
                    },
                    _ => {
                        out.push(HtmlItem::Keep(i));
                        assert(views(out@) =~= done.push(ItemView::Keep(i as nat)));
                    },
                }
            },
        }
    }
    out
}

/// A markdown text as sanitised HTML.
pub open spec fn safe_html(md: Seq<char>, ids: Seq<Seq<char>>) -> Seq<char> {
    html_of(md, RENDER_DIALECT, safe_items(markdown_events(md, RENDER_DIALECT), ids))
}

/// Render a markdown text as sanitised HTML: raw HTML becomes text, images
/// become labelled links, and links outside the allowed destinations become
/// text.
pub fn markdown_to_safe_html(md: &str, ids: &Vec<String>) -> (r: String)
    ensures
        r@ == safe_html(md@, texts(ids@)),
{
    let events = parse_markdown(md, RENDER_DIALECT);
    let items = sanitise(&events, ids);
    proof {
        assert(views(events@).len() == events@.len());
    }
    push_html(md, RENDER_DIALECT, &items)
}

/// Whether an item is safe: a kept event is neither raw HTML nor the start of
/// an image or of a link, and a link leads to an allowed destination.
pub open spec fn item_is_safe(
    item: ItemView,
    events: Seq<EventView>,
    ids: Seq<Seq<char>>,
) -> bool {
    match item {
        ItemView::Keep(i) => i < events.len() && !(events[i as int].mark is Html) && !(
        events[i as int].mark is ImageStart) && !(events[i as int].mark is LinkStart),
        ItemView::LinkStart(dest) => allowed(dest, ids),
        _ => true,
    }
}

/// After `n` events every item is safe.
proof fn lemma_cleaned_is_safe(events: Seq<EventView>, n: nat, ids: Seq<Seq<char>>)
    requires
        n <= events.len(),
    ensures
        forall|k: int|
            0 <= k < cleaned(events, n, ids).out.len() ==> item_is_safe(
                #[trigger] cleaned(events, n, ids).out[k],
                events,
                ids,
            ),
    decreases n,
{
    if n > 0 {
        let m = (n - 1) as nat;
        lemma_cleaned_is_safe(events, m, ids);
        let st = cleaned(events, m, ids);
        let next = cleaned(events, n, ids);
        assert(next == clean_step(st, events[m as int], m, ids));
        assert forall|k: int| 0 <= k < next.out.len() implies item_is_safe(
            #[trigger] next.out[k],
            events,
            ids,
        ) by {
            if k < st.out.len() {
                assert(next.out[k] == st.out[k]);
            }
        }
    }
}

/// What is rendered holds no raw HTML of the mem, no image and no link to a
/// destination that is not allowed, whatever the events are.
pub proof fn law_rendering_is_safe(events: Seq<EventView>, ids: Seq<Seq<char>>)
    ensures
        forall|k: int|
            0 <= k < safe_items(events, ids).len() ==> item_is_safe(
                #[trigger] safe_items(events, ids)[k],
                events,
                ids,
            ),
{
    lemma_cleaned_is_safe(events, events.len(), ids);
}

// ---------------------------------------------------------------------
// What is exported
// ---------------------------------------------------------------------

/// A chain: the entities that are reachable from a root, and how it is
/// called.
#[derive(Debug, Clone)]
pub struct ChainSet {
    pub members: Vec<String>,
    pub description: String,
}

impl ChainSet {
    /// Whether an entity belongs to the chain.
    pub fn contains(&self, id: &EntityId) -> (r: bool)
        ensures
            r == texts(self.members@).contains(id.0@),
    {
        listed(&self.members, &id.0)
    }

    /// What the chain is called.
    pub fn describe(&self) -> (r: String)
        ensures
            r == self.description,
    {
        self.description.clone()
    }
}

/// Where an entity stands in an export: by its group, then by its id.
#[derive(Debug, Clone)]
pub struct EntityKey {
    pub group: String,
    pub id: String,
    /// Where the entity stands in the store.
    pub at: usize,
}

/// What an `EntityKey` holds.
pub struct KeyView {
    pub group: Seq<char>,
    pub id: Seq<char>,
    pub at: int,
}

impl View for EntityKey {
    type V = KeyView;

    open spec fn view(&self) -> KeyView {
        KeyView { group: self.group@, id: self.id@, at: self.at as int }
    }
}

/// Whether one key goes before another.
pub open spec fn key_less(a: KeyView, b: KeyView) -> bool {
    lex_less(a.group, b.group) || (a.group == b.group && lex_less(a.id, b.id))
}

impl Ranked for EntityKey {
    open spec fn ranks_before(a: KeyView, b: KeyView) -> bool {
        key_less(a, b)
    }

    fn goes_before(&self, other: &Self) -> (r: bool) {
        before(&self.group, &other.group) || (same(&self.group, &other.group) && before(
            &self.id,
            &other.id,
        ))
    }
}

/// Whether the export of `mem`, of a chain or of all of it, shows an entity
/// among its stubs or among its entities.
pub open spec fn shows(e: Entity, mem: Seq<char>, stubs: bool, chain: Option<ChainSet>) -> bool {
    &&& e.mem@ == mem
    &&& e.stub == stubs
    &&& match chain {
        Some(c) => texts(c.members@).contains(e.id.0@),
        None => true,
    }
}

/// The keys of the entities that an export shows, in the order of the store.
/// Stubs stand in one group, entities in that of their type.
pub open spec fn picked(
    entities: Seq<Entity>,
    mem: Seq<char>,
    stubs: bool,
    chain: Option<ChainSet>,
) -> Seq<KeyView>
    decreases entities.len(),
{
    if entities.len() == 0 {
        Seq::empty()
    } else {
        let rest = picked(entities.drop_last(), mem, stubs, chain);
        let e = entities.last();
        if shows(e, mem, stubs, chain) {
            rest.push(
                KeyView {
                    group: if stubs {
                        Seq::empty()
                    } else {
                        e.entity_type@
                    },
                    id: e.id.0@,
                    at: entities.len() - 1,
                },
            )
        } else {
            rest
        }
    }
}

/// The keys of the entities that an export shows, in the order in which it
/// shows them.
pub open spec fn exported(
    entities: Seq<Entity>,
    mem: Seq<char>,
    stubs: bool,
    chain: Option<ChainSet>,
) -> Seq<KeyView> {
    sorted(picked(entities, mem, stubs, chain), |a: KeyView, b: KeyView| key_less(a, b))
}

/// The ids of a list of keys.
pub open spec fn key_ids(keys: Seq<KeyView>) -> Seq<Seq<char>> {
    keys.map_values(|k: KeyView| k.id)
}

/// Every key stands for an entity of the store that the export shows.
proof fn lemma_picked(
    entities: Seq<Entity>,
    mem: Seq<char>,
    stubs: bool,
    chain: Option<ChainSet>,
)
    ensures
        forall|k: int|
            0 <= k < picked(entities, mem, stubs, chain).len() ==> key_stands(
                #[trigger] picked(entities, mem, stubs, chain)[k],
                entities,
                mem,
                stubs,
                chain,
            ),
        forall|i: int|
            0 <= i < entities.len() && shows(#[trigger] entities[i], mem, stubs, chain)
                ==> exists|k: int|
                0 <= k < picked(entities, mem, stubs, chain).len() && (#[trigger] picked(
                    entities,
                    mem,
                    stubs,
                    chain,
                )[k]).at == i,
    decreases entities.len(),
{
    if entities.len() > 0 {
        let head = entities.drop_last();
        lemma_picked(head, mem, stubs, chain);
        let before = picked(head, mem, stubs, chain);
        let now = picked(entities, mem, stubs, chain);
        assert forall|k: int| 0 <= k < now.len() implies key_stands(
            #[trigger] now[k],
            entities,
            mem,
            stubs,
            chain,
        ) by {
            if k < before.len() {
                assert(now[k] == before[k]);
                assert(head[before[k].at] == entities[before[k].at]);
            }
        }
        assert forall|i: int|
            0 <= i < entities.len() && shows(
                #[trigger] entities[i],
                mem,
                stubs,
                chain,
            ) implies exists|
            k: int,
        | 0 <= k < now.len() && (#[trigger] now[k]).at == i by {
            if i < head.len() {
                assert(head[i] == entities[i]);
                let k = choose|k: int| 0 <= k < before.len() && (#[trigger] before[k]).at == i;
                assert(now[k] == before[k]);
            } else {
                assert(now[now.len() - 1].at == i);
            }
        }
    }
}

/// Whether a key stands for an entity of the store that the export shows.
pub open spec fn key_stands(
    key: KeyView,
    entities: Seq<Entity>,
    mem: Seq<char>,
    stubs: bool,
    chain: Option<ChainSet>,
) -> bool {
    0 <= key.at < entities.len() && shows(entities[key.at], mem, stubs, chain) && key.id
        == entities[key.at].id.0@ && (stubs || key.group == entities[key.at].entity_type@)
}

/// An export shows every entity that it is to show and no other, each by its
/// own type and id, in the order of types and then of ids.
pub proof fn law_export_is_complete_and_ordered(
    entities: Seq<Entity>,
    mem: Seq<char>,
    stubs: bool,
    chain: Option<ChainSet>,
)
    ensures
        forall|k: int|
            0 <= k < exported(entities, mem, stubs, chain).len() ==> key_stands(
                #[trigger] exported(entities, mem, stubs, chain)[k],
                entities,
                mem,
                stubs,
                chain,
            ),
        forall|i: int|
            0 <= i < entities.len() && shows(#[trigger] entities[i], mem, stubs, chain)
                ==> exists|k: int|
                0 <= k < exported(entities, mem, stubs, chain).len() && (#[trigger] exported(
                    entities,
                    mem,
                    stubs,
                    chain,
                )[k]).at == i,
        forall|i: int, j: int|
            #![trigger exported(entities, mem, stubs, chain)[i], exported(entities, mem, stubs, chain)[j]]
            0 <= i < j < exported(entities, mem, stubs, chain).len() ==> !key_less(
                exported(entities, mem, stubs, chain)[j],
                exported(entities, mem, stubs, chain)[i],
            ),
{
    let less = |a: KeyView, b: KeyView| key_less(a, b);
    let all = picked(entities, mem, stubs, chain);
    let out = exported(entities, mem, stubs, chain);
    lemma_picked(entities, mem, stubs, chain);
    assert forall|k: int| 0 <= k < out.len() implies key_stands(
        #[trigger] out[k],
        entities,
        mem,
        stubs,
        chain,
    ) by {
        crate::sort::lemma_same_members(all, less, out[k]);
        assert(out.contains(out[k]));
        let j = choose|j: int| 0 <= j < all.len() && all[j] == out[k];
        assert(key_stands(all[j], entities, mem, stubs, chain));
    }
    assert forall|i: int|
        0 <= i < entities.len() && shows(#[trigger] entities[i], mem, stubs, chain) implies exists|
        k: int,
    | 0 <= k < out.len() && (#[trigger] out[k]).at == i by {
        let j = choose|j: int| 0 <= j < all.len() && (#[trigger] all[j]).at == i;
        crate::sort::lemma_same_members(all, less, all[j]);
        assert(all.contains(all[j]));
        let k = choose|k: int| 0 <= k < out.len() && out[k] == all[j];
        assert(out[k].at == i);
    }
    lemma_key_order();
    crate::sort::law_sorted_is_ordered(all, less);
    assert forall|i: int, j: int|
        #![trigger out[i], out[j]]
        0 <= i < j < out.len() implies !key_less(out[j], out[i]) by {
        assert(!less(out[j], out[i]));
    }
}

/// The order of keys is a strict order.
proof fn lemma_key_order()
    ensures
        crate::sort::is_strict_order(|a: KeyView, b: KeyView| key_less(a, b)),
{
    let less = |a: KeyView, b: KeyView| key_less(a, b);
    let lex = |a: Seq<char>, b: Seq<char>| lex_less(a, b);
    assert forall|a: KeyView| !#[trigger] less(a, a) by {
        crate::text::lemma_lex_irreflexive(a.group);
        crate::text::lemma_lex_irreflexive(a.id);
    }
    assert forall|a: KeyView, b: KeyView, c: KeyView| #[trigger]
        less(a, b) && #[trigger] less(b, c) implies less(a, c) by {
        if lex_less(a.group, b.group) && lex_less(b.group, c.group) {
            crate::text::lemma_lex_transitive(a.group, b.group, c.group);
        }
        if lex_less(a.id, b.id) && lex_less(b.id, c.id) {
            crate::text::lemma_lex_transitive(a.id, b.id, c.id);
        }
    }
    assert forall|a: KeyView, b: KeyView, c: KeyView| #[trigger]
        less(a, c) && !#[trigger] less(b, c) implies less(a, b) by {
        crate::sort::lemma_lex_is_strict_order();
        assert(lex(a.group, c.group) == lex_less(a.group, c.group));
        assert(lex(b.group, c.group) == lex_less(b.group, c.group));
        assert(lex(a.group, b.group) == lex_less(a.group, b.group));
        assert(lex(a.id, c.id) == lex_less(a.id, c.id));
        assert(lex(b.id, c.id) == lex_less(b.id, c.id));
        assert(lex(a.id, b.id) == lex_less(a.id, b.id));
        crate::text::lemma_lex_total(b.group, c.group);
    }
}

/// The keys of the entities that an export shows, in order.
fn pick(
    entities: &Vec<Entity>,
    mem: &str,
    stubs: bool,
    chain: Option<&ChainSet>,
) -> (r: Vec<EntityKey>)
    ensures
        views(r@) == exported(
            entities@,
            mem@,
            stubs,
            match chain {
                Some(c) => Some(*c),
                None => None,
            },
        ),
        forall|k: int| 0 <= k < r@.len() ==> (#[trigger] r@[k]).at < entities@.len(),
{
    let ghost scope: Option<ChainSet> = match chain {
        Some(c) => Some(*c),
        None => None,
    };
    let mut keys: Vec<EntityKey> = Vec::new();
    assert(views(keys@) =~= picked(entities@.take(0), mem@, stubs, scope));
    for i in 0..entities.len()
        invariant
            scope == (match chain {
                Some(c) => Some(*c),
                None => None,
            }),
            views(keys@) == picked(entities@.take(i as int), mem@, stubs, scope),
    {
        let ghost done = views(keys@);
        assert(entities@.take(i + 1).drop_last() =~= entities@.take(i as int));
        let e = &entities[i];
        let in_scope = match chain {
            Some(c) => c.contains(&e.id),
            None => true,
        };
        if same(&e.mem, mem) && e.stub == stubs && in_scope {
            let key = EntityKey {
                group: if stubs {
                    String::new()
                } else {
                    e.entity_type.clone()
                },
                id: e.id.0.clone(),
                at: i,
            };
            proof {
                assert(key.group@ =~= (if stubs {
                    Seq::empty()
                } else {
                    e.entity_type@
                }));
            }
            keys.push(key);
            assert(views(keys@) =~= done.push(key@));
        }
    }
    assert(entities@.take(entities@.len() as int) =~= entities@);
    let r = stable_sort(keys);
    proof {
        assert((|a: KeyView, b: KeyView| EntityKey::ranks_before(a, b)) =~= (|
            a: KeyView,
            b: KeyView,
        | key_less(a, b)));
        law_export_is_complete_and_ordered(entities@, mem@, stubs, scope);
        assert forall|k: int| 0 <= k < r@.len() implies (#[trigger] r@[k]).at < entities@.len() by {
            assert(exported(entities@, mem@, stubs, scope)[k] == r@[k]@);
        }
    }
    r
}

// ---------------------------------------------------------------------
// The document
// ---------------------------------------------------------------------

/// The inline style of the document, with what closes its head.
pub const STYLE: &'static str = "<style>\nbody{font-family:-apple-system,BlinkMacSystemFont,'Segoe UI',sans-serif;max-width:52rem;margin:0 auto;padding:2rem 1rem;line-height:1.55;color:#1a1a1a;}\nh1{border-bottom:2px solid #ddd;padding-bottom:.3rem;}\nsection.entity{border-top:1px solid #ddd;margin-top:2rem;padding-top:1rem;}\ntable.meta{border-collapse:collapse;font-size:.9rem;margin:.5rem 0;}\ntable.meta td{border:1px solid #ddd;padding:.15rem .5rem;}\ntable.meta td:first-child{color:#555;}\nnav ul{columns:2;list-style:none;padding-left:0;}\nnav li{margin:.15rem 0;}\n.identity{background:#f6f6f6;border:1px solid #ddd;padding:.75rem 1rem;border-radius:4px;font-size:.95rem;}\n.badge{display:inline-block;background:#eee;border-radius:3px;padding:0 .4rem;font-size:.8rem;color:#555;}\n.stub{color:#888;font-style:italic;}\n.reltable{font-size:.9rem;}\n@media print{nav ul{columns:1;}}\n</style>\n</head>\n<body>\n";

/// What stands before the title.
pub const DOC_HEAD: &'static str = "<!DOCTYPE html>\n<html lang=\"en\">\n<head>\n<meta charset=\"utf-8\">\n<meta name=\"viewport\" content=\"width=device-width, initial-scale=1\">\n";

/// The title of the document: that of the mem's config, or its name.
pub open spec fn doc_title(mem: Seq<char>, config: Option<MemConfig>) -> Seq<char> {
    match config {
        Some(c) => match c.title {
            Some(t) => t@,
            None => mem,
        },
        None => mem,
    }
}

/// One line of the identity block.
pub open spec fn identity_line(label: Seq<char>, value: Seq<char>) -> Seq<char> {
    "<div><strong>"@ + label + ":</strong> "@ + value + "</div>\n"@
}

/// One line of the identity block.
fn identity_line_of(label: &str, value: &str) -> (r: String)
    ensures
        r@ == identity_line(label@, value@),
{
    "<div><strong>".to_owned().concat(label).concat(":</strong> ").concat(value).concat("</div>\n")
}

/// The description of a mem, where it has one that is not empty.
pub open spec fn description_line(config: Option<MemConfig>) -> Seq<char> {
    match config {
        Some(c) => match c.description {
            Some(d) => if d@.len() > 0 {
                identity_line("Description"@, escaped(d@))
            } else {
                Seq::empty()
            },
            None => Seq::empty(),
        },
        None => Seq::empty(),
    }
}

/// The subject of a mem, where it has one.
pub open spec fn subject_line(config: Option<MemConfig>) -> Seq<char> {
    match config {
        Some(c) => match c.subject {
            Some(s) => identity_line("Subject"@, escaped(s@)),
            None => Seq::empty(),
        },
        None => Seq::empty(),
    }
}

/// The schema of a mem as the export names it.
pub open spec fn schema_label(schema: Option<Arc<Schema>>) -> Seq<char> {
    match schema {
        Some(s) => s.display(),
        None => "(unresolved)"@,
    }
}

/// Whose content the export quotes.
pub open spec fn trust_label(capability: MountCapability) -> Seq<char> {
    match capability {
        MountCapability::ReadOnly => "third-party (read-only mount — someone else's published content, quoted here)"@,
        MountCapability::Write => "first-party (writable mem of this workspace)"@,
    }
}

/// The chain that an export is reduced to, where it is.
pub open spec fn chain_line(chain: Option<ChainSet>) -> Seq<char> {
    match chain {
        Some(c) => identity_line(
            "Chain"@,
            escaped(c.description@)
                + " — only the entities reachable from the root are rendered; links to entities outside the chain are marked unresolved"@,
        ),
        None => Seq::empty(),
    }
}

/// What is told of the mem, down to the end of the identity block.
pub open spec fn identity_text(
    mem: Seq<char>,
    date: Seq<char>,
    chain: Option<ChainSet>,
    capability: MountCapability,
    config: Option<MemConfig>,
    schema: Option<Arc<Schema>>,
    count: nat,
) -> Seq<char> {
    let title = escaped(doc_title(mem, config));
    DOC_HEAD@ + "<title>"@ + title + "</title>\n"@ + STYLE@ + "<h1>"@ + title
        + "</h1>\n<div class=\"identity\">\n"@ + identity_line("Mem"@, escaped(mem))
        + description_line(config) + subject_line(config) + identity_line(
        "Schema"@,
        escaped(schema_label(schema)),
    ) + identity_line("Origin"@, trust_label(capability)) + chain_line(chain) + identity_line(
        "Exported"@,
        escaped(date) + " · "@ + decimal(count) + " entities"@,
    ) + "</div>\n"@
}

/// What is told of the mem, down to the end of the identity block.
fn identity_text_of(
    mem: &str,
    date: &str,
    chain: Option<&ChainSet>,
    capability: MountCapability,
    config: Option<&MemConfig>,
    schema: Option<&Arc<Schema>>,
    count: usize,
) -> (r: String)
    ensures
        r@ == identity_text(
            mem@,
            date@,
            match chain {
                Some(c) => Some(*c),
                None => None,
            },
            capability,
            match config {
                Some(c) => Some(*c),
                None => None,
            },
            match schema {
                Some(s) => Some(*s),
                None => None,
            },
            count as nat,
        ),
{
    let title = match config {
        Some(c) => match &c.title {
            Some(t) => esc(t),
            None => esc(mem),
        },
        None => esc(mem),
    };
    let description = match config {
        Some(c) => match &c.description {
            Some(d) => if chars_of(d).len() > 0 {
                identity_line_of("Description", &esc(d))
            } else {
                String::new()
            },
            None => String::new(),
        },
        None => String::new(),
    };
    let subject = match config {
        Some(c) => match &c.subject {
            Some(s) => identity_line_of("Subject", &esc(s)),
            None => String::new(),
        },
        None => String::new(),
    };
    let schema_ref = match schema {
        Some(s) => s.as_display(),
        None => own("(unresolved)"),
    };
    let trust = match capability {
        MountCapability::ReadOnly => "third-party (read-only mount — someone else's published content, quoted here)",
        MountCapability::Write => "first-party (writable mem of this workspace)",
    };
    let scope = match chain {
        Some(c) => identity_line_of(
            "Chain",
            &esc(&c.describe()).concat(
                " — only the entities reachable from the root are rendered; links to entities outside the chain are marked unresolved",
            ),
        ),
        None => String::new(),
    };
    let stamp = identity_line_of(
        "Exported",
        &esc(date).concat(" · ").concat(&decimal_of(count as u64)).concat(" entities"),
    );
    own(DOC_HEAD).concat("<title>").concat(&title).concat("</title>\n").concat(STYLE).concat(
        "<h1>",
    ).concat(&title).concat("</h1>\n<div class=\"identity\">\n").concat(
        &identity_line_of("Mem", &esc(mem)),
    ).concat(&description).concat(&subject).concat(
        &identity_line_of("Schema", &esc(&schema_ref)),
    ).concat(&identity_line_of("Origin", trust)).concat(&scope).concat(&stamp).concat("</div>\n")
}

/// Where the group that starts at `i` ends.
pub open spec fn group_end(keys: Seq<KeyView>, group: Seq<char>, i: int) -> int
    decreases keys.len() - i,
{
    if 0 <= i < keys.len() && keys[i].group == group {
        group_end(keys, group, i + 1)
    } else {
        i
    }
}

/// The entry of one entity in the index.
pub open spec fn index_entry(e: Entity) -> Seq<char> {
    "<li><a href=\"#"@ + escaped(e.id.0@) + "\">"@ + escaped(e.title@) + "</a></li>\n"@
}

/// The entries of the keys `from..to` in the index.
pub open spec fn index_entries(
    keys: Seq<KeyView>,
    entities: Seq<Entity>,
    from: int,
    to: int,
) -> Seq<char>
    decreases to - from,
{
    if from >= to {
        Seq::empty()
    } else {
        index_entries(keys, entities, from, to - 1) + index_entry(entities[keys[to - 1].at])
    }
}

/// The index from key `i` on: one list for each group.
pub open spec fn index_from(keys: Seq<KeyView>, entities: Seq<Entity>, i: int) -> Seq<char>
    decreases keys.len() - i,
{
    if 0 <= i < keys.len() {
        let end = group_end(keys, keys[i].group, i);
        if i < end <= keys.len() {
            "<h3>"@ + escaped(keys[i].group) + " ("@ + decimal((end - i) as nat)
                + ")</h3>\n<ul>\n"@ + index_entries(keys, entities, i, end) + "</ul>\n"@
                + index_from(keys, entities, end)
        } else {
            Seq::empty()
        }
    } else {
        Seq::empty()
    }
}

/// The index of the document.
pub open spec fn index_text(keys: Seq<KeyView>, entities: Seq<Entity>) -> Seq<char> {
    "<nav>\n<h2>Index</h2>\n"@ + index_from(keys, entities, 0) + "</nav>\n"@
}

/// The index of the document.
fn index_text_of(keys: &Vec<EntityKey>, entities: &Vec<Entity>) -> (r: String)
    requires
        forall|k: int| 0 <= k < keys@.len() ==> (#[trigger] keys@[k]).at < entities@.len(),
    ensures
        r@ == index_text(views(keys@), entities@),
{
    let ghost kv = views(keys@);
    let mut out = own("<nav>\n<h2>Index</h2>\n");
    let ghost opening = out@;
    let mut i: usize = 0;
    let n: usize = keys.len();
    while i < n
        invariant
            n == keys@.len(),
            i <= n,
            kv == views(keys@),
            forall|k: int| 0 <= k < keys@.len() ==> (#[trigger] keys@[k]).at < entities@.len(),
            opening + index_from(kv, entities@, 0) == out@ + index_from(kv, entities@, i as int),
        decreases n - i,
    {
        let group = keys[i].group.clone();
        assert(kv[i as int].group == group@);
        let mut end: usize = i;
        let mut entries = String::new();
        assert(entries@ =~= index_entries(kv, entities@, i as int, i as int));
        while end < n && same(&keys[end].group, &group)
            invariant
                n == keys@.len(),
                i <= end <= n,
                kv == views(keys@),
                forall|k: int|
                    0 <= k < keys@.len() ==> (#[trigger] keys@[k]).at < entities@.len(),
                group_end(kv, group@, i as int) == group_end(kv, group@, end as int),
                entries@ == index_entries(kv, entities@, i as int, end as int),
            decreases n - end,
        {
            let e = &entities[keys[end].at];
            assert(kv[end as int] == keys@[end as int]@);
            let entry = "<li><a href=\"#".to_owned().concat(&esc(&e.id.0)).concat("\">").concat(
                &esc(&e.title),
            ).concat("</a></li>\n");
            entries.append(&entry);
            end = end + 1;
        }
        proof {
            if end < n {
                assert(kv[end as int] == keys@[end as int]@);
            }
            assert(group_end(kv, group@, i as int) == end);
            assert(group_end(kv, group@, i as int) == group_end(kv, group@, i + 1));
            lemma_group_end(kv, group@, i + 1);
        }
        let part = "<h3>".to_owned().concat(&esc(&group)).concat(" (").concat(
            &decimal_of((end - i) as u64),
        ).concat(")</h3>\n<ul>\n").concat(&entries).concat("</ul>\n");
        let ghost done = out@;
        out.append(&part);
        assert(done + index_from(kv, entities@, i as int) =~= out@ + index_from(
            kv,
            entities@,
            end as int,
        ));
        i = end;
    }
    assert(out@ + index_from(kv, entities@, i as int) =~= out@);
    out.concat("</nav>\n")
}

/// A group ends at or behind its start, within the list.
proof fn lemma_group_end(keys: Seq<KeyView>, group: Seq<char>, i: int)
    requires
        0 <= i <= keys.len(),
    ensures
        i <= group_end(keys, group, i) <= keys.len(),
    decreases keys.len() - i,
{
    if i < keys.len() && keys[i].group == group {
        lemma_group_end(keys, group, i + 1);
    }
}

/// The rows of a metadata table.
pub open spec fn meta_rows(meta: Seq<(String, MetadataValue)>) -> Seq<char>
    decreases meta.len(),
{
    if meta.len() == 0 {
        Seq::empty()
    } else {
        meta_rows(meta.drop_last()) + "<tr><td>"@ + escaped(meta.last().0@) + "</td><td>"@
            + escaped(meta.last().1.frontmatter()) + "</td></tr>\n"@
    }
}

/// The metadata table of an entity, where it has metadata.
pub open spec fn meta_table(meta: Seq<(String, MetadataValue)>) -> Seq<char> {
    if meta.len() == 0 {
        Seq::empty()
    } else {
        "<table class=\"meta\">\n"@ + meta_rows(meta) + "</table>\n"@
    }
}

/// The metadata table of an entity, where it has metadata.
fn meta_table_of(meta: &Vec<(String, MetadataValue)>) -> (r: String)
    ensures
        r@ == meta_table(meta@),
{
    if meta.len() == 0 {
        return String::new();
    }
    let mut rows = String::new();
    for i in 0..meta.len()
        invariant
            rows@ == meta_rows(meta@.take(i as int)),
    {
        assert(meta@.take(i + 1).drop_last() =~= meta@.take(i as int));
        rows = rows.concat("<tr><td>").concat(&esc(&meta[i].0)).concat("</td><td>").concat(
            &esc(&meta[i].1.to_frontmatter_string()),
        ).concat("</td></tr>\n");
    }
    assert(meta@.take(meta@.len() as int) =~= meta@);
    "<table class=\"meta\">\n".to_owned().concat(&rows).concat("</table>\n")
}

/// The heading that a type declares for the section `key`, from `i` on.
pub open spec fn declared_heading(
    sections: Seq<SectionDef>,
    key: Seq<char>,
    i: int,
) -> Option<Seq<char>>
    decreases sections.len() - i,
{
    if i < 0 || i >= sections.len() {
        None
    } else if sections[i].key@ == key {
        Some(sections[i].heading@)
    } else {
        declared_heading(sections, key, i + 1)
    }
}

/// The heading of a section: the one that the schema declares, or its key.
pub open spec fn heading_of(
    schema: Option<Arc<Schema>>,
    entity_type: Seq<char>,
    key: Seq<char>,
) -> Seq<char> {
    match schema {
        Some(s) => match s.type_named(entity_type) {
            Some(t) => match declared_heading(t.sections@, key, 0) {
                Some(h) => h,
                None => key,
            },
            None => key,
        },
        None => key,
    }
}

/// The heading of a section: the one that the schema declares, or its key.
fn heading_for(schema: Option<&Arc<Schema>>, entity_type: &str, key: &str) -> (r: String)
    ensures
        r@ == heading_of(
            match schema {
                Some(s) => Some(*s),
                None => None,
            },
            entity_type@,
            key@,
        ),
{
    let type_def = match schema {
        Some(s) => match s.get_type(entity_type) {
            Some(t) => t,
            None => {
                return own(key);
            },
        },
        None => {
            return own(key);
        },
    };
    let mut i: usize = 0;
    while i < type_def.sections.len()
        invariant
            i <= type_def.sections@.len(),
            declared_heading(type_def.sections@, key@, 0) == declared_heading(
                type_def.sections@,
                key@,
                i as int,
            ),
            schema matches Some(s) && s.type_named(entity_type@) == Some(*type_def),
        decreases type_def.sections@.len() - i,
    {
        if same(&type_def.sections[i].key, key) {
            return type_def.sections[i].heading.clone();
        }
        i = i + 1;
    }
    own(key)
}

/// The sections of an entity: those with something in them, each under its
/// heading, with links resolved and the rest sanitised.
pub open spec fn sections_text(
    sections: Seq<(String, String)>,
    entity_type: Seq<char>,
    schema: Option<Arc<Schema>>,
    mem: Seq<char>,
    ids: Seq<Seq<char>>,
) -> Seq<char>
    decreases sections.len(),
{
    if sections.len() == 0 {
        Seq::empty()
    } else {
        let rest = sections_text(sections.drop_last(), entity_type, schema, mem, ids);
        let s = sections.last();
        if trim(s.1@).len() == 0 {
            rest
        } else {
            rest + "<h3>"@ + escaped(heading_of(schema, entity_type, s.0@)) + "</h3>\n"@
                + safe_html(resolved(s.1@, mem, ids), ids)
        }
    }
}

/// The sections of an entity.
fn sections_text_of(
    sections: &Vec<(String, String)>,
    entity_type: &str,
    schema: Option<&Arc<Schema>>,
    mem: &str,
    ids: &Vec<String>,
) -> (r: String)
    ensures
        r@ == sections_text(
            sections@,
            entity_type@,
            match schema {
                Some(s) => Some(*s),
                None => None,
            },
            mem@,
            texts(ids@),
        ),
{
    let ghost known: Option<Arc<Schema>> = match schema {
        Some(s) => Some(*s),
        None => None,
    };
    let mut out = String::new();
    for i in 0..sections.len()
        invariant
            known == (match schema {
                Some(s) => Some(*s),
                None => None,
            }),
            out@ == sections_text(
                sections@.take(i as int),
                entity_type@,
                known,
                mem@,
                texts(ids@),
            ),
    {
        assert(sections@.take(i + 1).drop_last() =~= sections@.take(i as int));
        let body = &sections[i].1;
        if chars_of(&trimmed(body)).len() > 0 {
            let heading = heading_for(schema, entity_type, &sections[i].0);
            let html = markdown_to_safe_html(&resolve_wiki_links(body, mem, ids), ids);
            out = out.concat("<h3>").concat(&esc(&heading)).concat("</h3>\n").concat(&html);
        }
    }
    assert(sections@.take(sections@.len() as int) =~= sections@);
    out
}

impl View for Relationship {
    type V = (Seq<char>, Seq<char>);

    /// The type of the edge and the id of its target.
    open spec fn view(&self) -> (Seq<char>, Seq<char>) {
        (self.rel_type@, self.target.0@)
    }
}

impl Ranked for Relationship {
    open spec fn ranks_before(a: (Seq<char>, Seq<char>), b: (Seq<char>, Seq<char>)) -> bool {
        pair_less(a, b)
    }

    fn goes_before(&self, other: &Self) -> (r: bool) {
        before(&self.rel_type, &other.rel_type) || (same(&self.rel_type, &other.rel_type)
            && before(&self.target.0, &other.target.0))
    }
}

/// Whether an id names a stub of the store.
pub open spec fn names_stub(entities: Seq<Entity>, id: Seq<char>) -> bool {
    match entity_of(entities, id) {
        Some(e) => e.stub,
        None => false,
    }
}

/// One edge of an entity: to an anchor where the target is exported, else
/// marked as a stub, as unresolved where the target is the mem's own, or as
/// another mem's.
pub open spec fn edge_line(
    edge: (Seq<char>, Seq<char>),
    mem: Seq<char>,
    ids: Seq<Seq<char>>,
    entities: Seq<Entity>,
) -> Seq<char> {
    let lead = "<li>"@ + escaped(edge.0) + " → "@;
    if ids.contains(edge.1) {
        lead + "<a href=\"#"@ + escaped(edge.1) + "\">"@ + escaped(edge.1) + "</a></li>\n"@
    } else if names_stub(entities, edge.1) {
        lead + "<span class=\"stub\">"@ + escaped(edge.1)
            + " (stub — unresolved reference)</span></li>\n"@
    } else if starts(edge.1, mem + "--"@) {
        lead + "<span class=\"stub\">"@ + escaped(edge.1) + " (unresolved)</span></li>\n"@
    } else {
        lead + escaped(edge.1) + " <span class=\"badge\">other mem</span></li>\n"@
    }
}

/// The lines of a list of edges.
pub open spec fn edge_lines(
    edges: Seq<(Seq<char>, Seq<char>)>,
    mem: Seq<char>,
    ids: Seq<Seq<char>>,
    entities: Seq<Entity>,
) -> Seq<char>
    decreases edges.len(),
{
    if edges.len() == 0 {
        Seq::empty()
    } else {
        edge_lines(edges.drop_last(), mem, ids, entities) + edge_line(
            edges.last(),
            mem,
            ids,
            entities,
        )
    }
}

/// The edges of an entity in order, where it has any.
pub open spec fn edges_text(
    edges: Seq<(Seq<char>, Seq<char>)>,
    mem: Seq<char>,
    ids: Seq<Seq<char>>,
    entities: Seq<Entity>,
) -> Seq<char> {
    if edges.len() == 0 {
        Seq::empty()
    } else {
        "<h3>Relationships</h3>\n<ul class=\"reltable\">\n"@ + edge_lines(
            sorted(
                edges,
                |a: (Seq<char>, Seq<char>), b: (Seq<char>, Seq<char>)| pair_less(a, b),
            ),
            mem,
            ids,
            entities,
        ) + "</ul>\n"@
    }
}

/// The edges of an entity in order, where it has any.
fn edges_text_of(
    edges: &Vec<Relationship>,
    mem: &str,
    ids: &Vec<String>,
    store: &crate::entity::Store,
) -> (r: String)
    ensures
        r@ == edges_text(views(edges@), mem@, texts(ids@), store.entities@),
{
    if edges.len() == 0 {
        return String::new();
    }
    let mut copies: Vec<Relationship> = Vec::new();
    for i in 0..edges.len()
        invariant
            copies@ == edges@.take(i as int),
    {
        copies.push(edges[i].copy());
    }
    assert(copies@ =~= edges@);
    let rels = stable_sort(copies);
    let ghost ordered = views(rels@);
    proof {
        assert((|a: (Seq<char>, Seq<char>), b: (Seq<char>, Seq<char>)|
            <Relationship as Ranked>::ranks_before(a, b)) =~= (|
            a: (Seq<char>, Seq<char>),
            b: (Seq<char>, Seq<char>),
        | pair_less(a, b)));
    }
    let prefix = mem.to_owned().concat("--");
    let mut lines = String::new();
    assert(ordered.take(0) =~= Seq::empty());
    for i in 0..rels.len()
        invariant
            ordered == views(rels@),
            lines@ == edge_lines(ordered.take(i as int), mem@, texts(ids@), store.entities@),
            prefix@ == mem@ + "--"@,
    {
        assert(ordered.take(i + 1).drop_last() =~= ordered.take(i as int));
        let r = &rels[i];
        assert(ordered[i as int] == r@);
        let target = esc(&r.target.0);
        let lead = "<li>".to_owned().concat(&esc(&r.rel_type)).concat(" → ");
        let is_stub = match store.get(&r.target) {
            Some(t) => t.stub,
            None => false,
        };
        let line = if listed(ids, &r.target.0) {
            lead.concat("<a href=\"#").concat(&target).concat("\">").concat(&target).concat(
                "</a></li>\n",
            )
        } else if is_stub {
            lead.concat("<span class=\"stub\">").concat(&target).concat(
                " (stub — unresolved reference)</span></li>\n",
            )
        } else if begins(&r.target.0, &prefix) {
            lead.concat("<span class=\"stub\">").concat(&target).concat(
                " (unresolved)</span></li>\n",
            )
        } else {
            lead.concat(&target).concat(" <span class=\"badge\">other mem</span></li>\n")
        };
        lines.append(&line);
    }
    assert(ordered.take(ordered.len() as int) =~= ordered);
    "<h3>Relationships</h3>\n<ul class=\"reltable\">\n".to_owned().concat(&lines).concat("</ul>\n")
}

/// One entity of the document.
pub open spec fn entity_text(
    e: Entity,
    schema: Option<Arc<Schema>>,
    mem: Seq<char>,
    ids: Seq<Seq<char>>,
    entities: Seq<Entity>,
) -> Seq<char> {
    "<section class=\"entity\" id=\""@ + escaped(e.id.0@) + "\">\n<h2>"@ + escaped(e.title@)
        + "</h2>\n<span class=\"badge\">"@ + escaped(e.entity_type@)
        + "</span> <span class=\"badge\">"@ + escaped(e.id.0@) + "</span>\n"@ + meta_table(
        e.metadata@,
    ) + sections_text(e.sections@, e.entity_type@, schema, mem, ids) + edges_text(
        views(e.relationships@),
        mem,
        ids,
        entities,
    ) + "</section>\n"@
}

/// The entities of the keys.
pub open spec fn entities_text(
    keys: Seq<KeyView>,
    schema: Option<Arc<Schema>>,
    mem: Seq<char>,
    ids: Seq<Seq<char>>,
    entities: Seq<Entity>,
) -> Seq<char>
    decreases keys.len(),
{
    if keys.len() == 0 {
        Seq::empty()
    } else {
        entities_text(keys.drop_last(), schema, mem, ids, entities) + entity_text(
            entities[keys.last().at],
            schema,
            mem,
            ids,
            entities,
        )
    }
}

/// The lines of the stubs.
pub open spec fn stub_lines(keys: Seq<KeyView>) -> Seq<char>
    decreases keys.len(),
{
    if keys.len() == 0 {
        Seq::empty()
    } else {
        stub_lines(keys.drop_last()) + "<li class=\"stub\">"@ + escaped(keys.last().id)
            + " — referenced but never written</li>\n"@
    }
}

/// The list of the stubs, where there are any.
pub open spec fn stubs_text(keys: Seq<KeyView>) -> Seq<char> {
    if keys.len() == 0 {
        Seq::empty()
    } else {
        "<section class=\"entity\">\n<h2>Unresolved references (stubs)</h2>\n<ul>\n"@ + stub_lines(
            keys,
        ) + "</ul>\n</section>\n"@
    }
}

/// The list of the stubs, where there are any.
fn stubs_text_of(keys: &Vec<EntityKey>) -> (r: String)
    ensures
        r@ == stubs_text(views(keys@)),
{
    if keys.len() == 0 {
        return String::new();
    }
    let ghost kv = views(keys@);
    let mut lines = String::new();
    assert(kv.take(0) =~= Seq::empty());
    for i in 0..keys.len()
        invariant
            kv == views(keys@),
            lines@ == stub_lines(kv.take(i as int)),
    {
        assert(kv.take(i + 1).drop_last() =~= kv.take(i as int));
        assert(kv[i as int] == keys@[i as int]@);
        lines = lines.concat("<li class=\"stub\">").concat(&esc(&keys[i].id)).concat(
            " — referenced but never written</li>\n",
        );
    }
    assert(kv.take(kv.len() as int) =~= kv);
    "<section class=\"entity\">\n<h2>Unresolved references (stubs)</h2>\n<ul>\n".to_owned().concat(
        &lines,
    ).concat("</ul>\n</section>\n")
}

/// The document that an export of `mem` is.
pub open spec fn html_document(
    mem: Seq<char>,
    date: Seq<char>,
    chain: Option<ChainSet>,
    capability: MountCapability,
    config: Option<MemConfig>,
    schema: Option<Arc<Schema>>,
    entities: Seq<Entity>,
) -> Seq<char> {
    let keys = exported(entities, mem, false, chain);
    let ids = key_ids(keys);
    identity_text(mem, date, chain, capability, config, schema, keys.len()) + index_text(
        keys,
        entities,
    ) + entities_text(keys, schema, mem, ids, entities) + stubs_text(
        exported(entities, mem, true, chain),
    ) + "</body>\n</html>\n"@
}

impl<B, H> Engine<B, H> {
    /// Render one mem as one self-contained HTML document. `export_date` is
    /// stamped into the identity block once; besides it the document depends
    /// on the mem alone.
    pub fn render_html_export(&self, mem: &str, export_date: &str) -> (r: Result<
        String,
        EngineError,
    >)
        ensures
            match r {
                Ok(out) => self.mount_of(mem@) matches Some(m) && out@ == html_document(
                    mem@,
                    export_date@,
                    None,
                    m.mount.capability,
                    self.config_of(mem@),
                    schema_of(self.schemas@, mem@),
                    self.store.entities@,
                ),
                Err(e) => self.mount_at(mem@) is None && says_unmounted(mem@, e),
            },
    {
        self.render_html_export_scoped(mem, export_date, None)
    }

    /// Render one mem as one self-contained HTML document, reduced to a chain
    /// where one is given: only its entities are rendered, and links to
    /// entities outside it are marked unresolved. Without a chain the
    /// document is that of the whole mem.
    pub fn render_html_export_scoped(
        &self,
        mem: &str,
        export_date: &str,
        chain: Option<&ChainSet>,
    ) -> (r: Result<String, EngineError>)
        ensures
            match r {
                Ok(out) => self.mount_of(mem@) matches Some(m) && out@ == html_document(
                    mem@,
                    export_date@,
                    match chain {
                        Some(c) => Some(*c),
                        None => None,
                    },
                    m.mount.capability,
                    self.config_of(mem@),
                    schema_of(self.schemas@, mem@),
                    self.store.entities@,
                ),
                Err(e) => self.mount_at(mem@) is None && says_unmounted(mem@, e),
            },
    {
        let at = match self.position(mem) {
            Some(i) => i,
            None => {
                return Err(EngineError::UnknownMem(own(mem)));
            },
        };
        let schema = self.schema_for(mem);
        let keys = pick(&self.store.entities, mem, false, chain);
        let stubs = pick(&self.store.entities, mem, true, chain);
        let ghost kv = views(keys@);
        let ghost known: Option<Arc<Schema>> = match schema {
            Some(s) => Some(*s),
            None => None,
        };
        let mut ids: Vec<String> = Vec::new();
        for i in 0..keys.len()
            invariant
                kv == views(keys@),
                texts(ids@) == key_ids(kv).take(i as int),
        {
            let ghost done = texts(ids@);
            ids.push(keys[i].id.clone());
            assert(kv[i as int] == keys@[i as int]@);
            assert(texts(ids@) =~= done.push(keys@[i as int].id@));
            assert(key_ids(kv).take(i + 1) =~= key_ids(kv).take(i as int).push(
                key_ids(kv)[i as int],
            ));
        }
        assert(key_ids(kv).take(kv.len() as int) =~= key_ids(kv));
        let identity = identity_text_of(
            mem,
            export_date,
            chain,
            self.mounts[at].mount.capability,
            self.mem_config_for(mem),
            schema,
            keys.len(),
        );
        let mut body = String::new();
        assert(kv.take(0) =~= Seq::empty());
        for i in 0..keys.len()
            invariant
                kv == views(keys@),
                texts(ids@) == key_ids(kv),
                known == (match schema {
                    Some(s) => Some(*s),
                    None => None,
                }),
                forall|k: int|
                    0 <= k < keys@.len() ==> (#[trigger] keys@[k]).at
                        < self.store.entities@.len(),
                body@ == entities_text(
                    kv.take(i as int),
                    known,
                    mem@,
                    key_ids(kv),
                    self.store.entities@,
                ),
        {
            assert(kv.take(i + 1).drop_last() =~= kv.take(i as int));
            assert(kv[i as int] == keys@[i as int]@);
            let e = &self.store.entities[keys[i].at];
            let part = "<section class=\"entity\" id=\"".to_owned().concat(&esc(&e.id.0)).concat(
                "\">\n<h2>",
            ).concat(&esc(&e.title)).concat("</h2>\n<span class=\"badge\">").concat(
                &esc(&e.entity_type),
            ).concat("</span> <span class=\"badge\">").concat(&esc(&e.id.0)).concat(
                "</span>\n",
            ).concat(&meta_table_of(&e.metadata)).concat(
                &sections_text_of(&e.sections, &e.entity_type, schema, mem, &ids),
            ).concat(&edges_text_of(&e.relationships, mem, &ids, &self.store)).concat("</section>\n");
            body.append(&part);
        }
        assert(kv.take(kv.len() as int) =~= kv);
        Ok(
            identity.concat(&index_text_of(&keys, &self.store.entities)).concat(&body).concat(
                &stubs_text_of(&stubs),
            ).concat("</body>\n</html>\n"),
        )
    }
}

} // verus!
