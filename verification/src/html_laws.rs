//! What holds of the page export: what is escaped, what is linked, what is
//! taken out, and what stands on the page.

use crate::entity::{joined_id, Entity, MetadataValue};
use crate::export_html::{
    allowed, ascii_lower, cleaned, declared_heading, dest_allowed, edge_line, edge_lines,
    edges_text, entities_text, entity_text, esc_char, escaped, exported, full_id, group_end,
    heading_of, html_document, identity_line, identity_text, index_entries, index_entry, index_from,
    index_text, key_ids, link_close, link_open, link_text, lower_char, meta_rows, meta_table,
    names_stub, percent_bytes, removal_note, resolved, resolved_from, safe_html, sections_text,
    stub_lines, stubs_text, trust_label, ChainSet, Cleaning, KeyView,
};
use crate::markdown::{masked, EventView, ItemView, MarkView};
use crate::schema::{Schema, SectionDef};
use crate::sort::{lemma_same_members, pair_less, sorted, views};
use crate::text::{
    byte_len, contains, decimal, find, lemma_around, lemma_find, lemma_shown_further,
    lemma_shown_last, lemma_shown_on, lemma_shown_within, lemma_within, occurs_at, shows, starts,
    trim,
};
use crate::workspace::{MemConfig, MountCapability};
use std::sync::Arc;
use vstd::prelude::*;

verus! {

// ---------------------------------------------------------------------
// Escaping
// ---------------------------------------------------------------------

/// What a character of the source becomes on the page.
pub open spec fn on_page(c: char) -> Seq<char> {
    if c == '<' {
        seq!['&', 'l', 't', ';']
    } else if c == '>' {
        seq!['&', 'g', 't', ';']
    } else if c == '&' {
        seq!['&', 'a', 'm', 'p', ';']
    } else if c == '"' {
        seq!['&', 'q', 'u', 'o', 't', ';']
    } else {
        seq![c]
    }
}

/// Escaping goes character by character: brackets, ampersands and quotes
/// become references, and every other character stays.
pub proof fn law_escaping_goes_by_character(a: Seq<char>, c: char, b: Seq<char>)
    ensures
        escaped(a + seq![c] + b) == escaped(a) + on_page(c) + escaped(b),
        escaped(Seq::empty()) == Seq::<char>::empty(),
    decreases b.len(),
{
    let s = a + seq![c] + b;
    reveal_strlit("&amp;");
    reveal_strlit("&lt;");
    reveal_strlit("&gt;");
    reveal_strlit("&quot;");
    assert(esc_char(c) =~= on_page(c));
    if b.len() == 0 {
        assert(s.drop_last() =~= a);
        assert(s.last() == c);
        assert(escaped(a) + on_page(c) + escaped(b) =~= escaped(a) + on_page(c));
    } else {
        assert(s.drop_last() =~= a + seq![c] + b.drop_last());
        assert(s.last() == b.last());
        law_escaping_goes_by_character(a, c, b.drop_last());
        assert(escaped(s) =~= escaped(a) + on_page(c) + (escaped(b.drop_last()) + esc_char(
            b.last(),
        )));
    }
}

/// A text without brackets, ampersands and quotes stands on the page as it is.
pub proof fn law_plain_text_stays(s: Seq<char>)
    requires
        forall|i: int|
            0 <= i < s.len() ==> (#[trigger] s[i]) != '<' && s[i] != '>' && s[i] != '&' && s[i]
                != '"',
    ensures
        escaped(s) == s,
    decreases s.len(),
{
    if s.len() > 0 {
        assert forall|i: int| 0 <= i < s.drop_last().len() implies (#[trigger] s.drop_last()[i])
            != '<' && s.drop_last()[i] != '>' && s.drop_last()[i] != '&' && s.drop_last()[i]
            != '"' by {
            assert(s.drop_last()[i] == s[i]);
        }
        law_plain_text_stays(s.drop_last());
        assert(s.last() == s[s.len() - 1]);
        assert(s =~= s.drop_last() + seq![s.last()]);
    }
}

// ---------------------------------------------------------------------
// References
// ---------------------------------------------------------------------

/// A target that names a mem is its own id; another is one of the mem at hand.
pub proof fn law_target_names_its_id(target: Seq<char>, mem: Seq<char>)
    ensures
        (exists|i: int| #[trigger] occurs_at(target, "--"@, i)) ==> full_id(target, mem) == target,
        (forall|i: int| !(#[trigger] occurs_at(target, "--"@, i))) ==> full_id(target, mem) == mem
            + "--"@ + target,
{
    lemma_find(target, "--"@, 0);
}

/// A reference to an entity on the page becomes a link to it under the words
/// of the reference. One that leads to no entity on the page is no link, and
/// says so: as unresolved where it names the mem of the page, as of another
/// mem otherwise.
pub proof fn law_reference_links_or_says_why(
    target: Seq<char>,
    mem: Seq<char>,
    ids: Seq<Seq<char>>,
)
    ensures
        ids.contains(full_id(target, mem)) ==> link_text(target, mem, ids) == "["@ + target + "](#"@
            + full_id(target, mem) + ")"@,
        !ids.contains(full_id(target, mem)) && starts(full_id(target, mem), mem + "--"@)
            ==> link_text(target, mem, ids) == target + " *(unresolved)*"@,
        !ids.contains(full_id(target, mem)) && !starts(full_id(target, mem), mem + "--"@)
            ==> link_text(target, mem, ids) == full_id(target, mem) + " *(other mem)*"@,
{
    assert(joined_id(mem, ""@) =~= mem + "--"@) by {
        reveal_strlit("");
    }
}

/// The first place of a text, where nothing before it can begin it.
proof fn lemma_found_at(s: Seq<char>, p: Seq<char>, from: int, at: int)
    requires
        0 <= from <= at,
        p.len() > 0,
        occurs_at(s, p, at),
        forall|j: int| from <= j < at ==> s[j] != p[0],
    ensures
        find(s, p, from) == Some(at),
    decreases at - from,
{
    if from < at {
        if occurs_at(s, p, from) {
            assert(s.subrange(from, from + p.len())[0] == p[0]);
        }
        lemma_found_at(s, p, from + 1, at);
    }
}

/// A text that nothing can begin is not found.
proof fn lemma_found_nowhere(s: Seq<char>, p: Seq<char>, from: int)
    requires
        0 <= from,
        p.len() > 0,
        forall|j: int| from <= j < s.len() ==> s[j] != p[0],
    ensures
        find(s, p, from) is None,
    decreases s.len() - from,
{
    if from + p.len() <= s.len() {
        if occurs_at(s, p, from) {
            assert(s.subrange(from, from + p.len())[0] == p[0]);
        }
        lemma_found_nowhere(s, p, from + 1);
    }
}

/// A reference in the midst of prose is replaced alone: what stands before it
/// and what stands behind it stay as they are.
#[verifier::rlimit(40)]
pub proof fn law_reference_is_resolved_alone(
    before: Seq<char>,
    target: Seq<char>,
    behind: Seq<char>,
    mem: Seq<char>,
    ids: Seq<Seq<char>>,
)
    requires
        !before.contains('['),
        !target.contains(']'),
        !behind.contains('['),
    ensures
        ({
            let body = before + seq!['[', '['] + target + seq![']', ']'] + behind;
            resolved_from(body, body, mem, ids, 0) == before + link_text(target, mem, ids) + behind
        }),
{
    let body = before + seq!['[', '['] + target + seq![']', ']'] + behind;
    let start = before.len() as int;
    let end = (before.len() + 2 + target.len()) as int;
    assert(body.subrange(start, start + 2) =~= link_open());
    assert(body.subrange(end, end + 2) =~= link_close());
    assert forall|j: int| 0 <= j < start implies body[j] != '[' by {
        assert(body[j] == before[j]);
        assert(before.contains(before[j]));
    }
    lemma_found_at(body, link_open(), 0, start);
    assert forall|j: int| start + 2 <= j < end implies body[j] != ']' by {
        assert(body[j] == target[j - start - 2]);
        assert(target.contains(target[j - start - 2]));
    }
    lemma_found_at(body, link_close(), start + 2, end);
    assert forall|j: int| end + 2 <= j < body.len() implies body[j] != '[' by {
        assert(body[j] == behind[j - end - 2]);
        assert(behind.contains(behind[j - end - 2]));
    }
    lemma_found_nowhere(body, link_open(), end + 2);
    assert(body.subrange(0, start) =~= before);
    assert(body.subrange(start + 2, end) =~= target);
    assert(body.subrange(end + 2, body.len() as int) =~= behind);
    assert(resolved_from(body, body, mem, ids, end + 2) == behind);
    assert(resolved_from(body, body, mem, ids, 0) == before + link_text(target, mem, ids)
        + behind);
}

// ---------------------------------------------------------------------
// Links that are let through
// ---------------------------------------------------------------------

/// Whether a text begins with another, letters of either case taken alike.
pub open spec fn begins_in_any_case(s: Seq<char>, p: Seq<char>) -> bool {
    p.len() <= s.len() && forall|i: int|
        0 <= i < p.len() ==> p[i] == #[trigger] s[i] || ('A' <= s[i] <= 'Z' && p[i] as int
            == s[i] as int + 32)
}

/// Lower case, character by character.
proof fn lemma_lower(s: Seq<char>, p: Seq<char>)
    requires
        forall|i: int| 0 <= i < p.len() ==> !('A' <= #[trigger] p[i] <= 'Z'),
    ensures
        starts(ascii_lower(s), p) == begins_in_any_case(s, p),
{
    let t = ascii_lower(s);
    if p.len() <= s.len() {
        assert forall|i: int| 0 <= i < p.len() implies (t[i] == p[i]) == (p[i] == #[trigger] s[i]
            || ('A' <= s[i] <= 'Z' && p[i] as int == s[i] as int + 32)) by {
            assert(t[i] == lower_char(s[i]));
            assert(!('A' <= p[i] <= 'Z'));
            if 'A' <= s[i] <= 'Z' {
                assert(t[i] as int == s[i] as int + 32);
            }
        }
        if starts(t, p) {
            assert forall|i: int| 0 <= i < p.len() implies p[i] == #[trigger] s[i] || ('A' <= s[i]
                <= 'Z' && p[i] as int == s[i] as int + 32) by {
                assert(t.subrange(0, p.len() as int)[i] == t[i]);
            }
        }
        if begins_in_any_case(s, p) {
            assert forall|i: int| 0 <= i < p.len() implies t[i] == p[i] by {
                assert(p[i] == s[i] || ('A' <= s[i] <= 'Z' && p[i] as int == s[i] as int + 32));
            }
            assert(t.subrange(0, p.len() as int) =~= p);
        }
    }
}

/// A link leads out of the page only over `http`, `https` or `mailto`, in
/// letters of either case; a link within the page only to an entity on it.
/// Nothing else is let through.
pub proof fn law_links_lead_where_they_may(
    dest: Seq<char>,
    fragment: Seq<char>,
    ids: Seq<Seq<char>>,
)
    ensures
        dest.len() > 0 && dest[0] == '#' ==> dest_allowed(dest, fragment, ids) == ids.contains(
            fragment,
        ),
        !(dest.len() > 0 && dest[0] == '#') ==> dest_allowed(dest, fragment, ids) == (
        begins_in_any_case(trim(dest), seq!['h', 't', 't', 'p', ':', '/', '/'])
            || begins_in_any_case(trim(dest), seq!['h', 't', 't', 'p', 's', ':', '/', '/'])
            || begins_in_any_case(trim(dest), seq!['m', 'a', 'i', 'l', 't', 'o', ':'])),
{
    reveal_strlit("#");
    if dest.len() > 0 {
        assert(dest.subrange(0, 1)[0] == dest[0]);
        if dest[0] == '#' {
            assert(dest.subrange(0, 1) =~= "#"@);
        }
    }
    reveal_strlit("http://");
    reveal_strlit("https://");
    reveal_strlit("mailto:");
    assert("http://"@ =~= seq!['h', 't', 't', 'p', ':', '/', '/']);
    assert("https://"@ =~= seq!['h', 't', 't', 'p', 's', ':', '/', '/']);
    assert("mailto:"@ =~= seq!['m', 'a', 'i', 'l', 't', 'o', ':']);
    lemma_lower(trim(dest), "http://"@);
    lemma_lower(trim(dest), "https://"@);
    lemma_lower(trim(dest), "mailto:"@);
}

/// Bytes without a percent sign stand for themselves; a percent sign with two
/// hexadecimal digits stands for the byte that they write.
pub proof fn law_percent_decoding(b: Seq<u8>, i: int, n: int, high: int, low: int)
    requires
        0 <= i <= n <= b.len(),
        forall|k: int| i <= k < n ==> #[trigger] b[k] != 0x25,
    ensures
        n == b.len() ==> percent_bytes(b, i) == b.subrange(i, n),
        n + 2 < b.len() && b[n] == 0x25 && is_hex(b[n + 1], high) && is_hex(b[n + 2], low)
            ==> percent_bytes(b, i) == b.subrange(i, n) + seq![(16 * high + low) as u8]
            + percent_bytes(b, n + 3),
    decreases n - i,
{
    if i < n {
        law_percent_decoding(b, i + 1, n, high, low);
        assert(b.subrange(i, n) =~= seq![b[i]] + b.subrange(i + 1, n));
        if n + 2 < b.len() && b[n] == 0x25 && is_hex(b[n + 1], high) && is_hex(b[n + 2], low) {
            assert(percent_bytes(b, i) =~= b.subrange(i, n) + seq![(16 * high + low) as u8]
                + percent_bytes(b, n + 3));
        }
    } else {
        assert(b.subrange(i, n) =~= Seq::empty());
        if n + 2 < b.len() && b[n] == 0x25 && is_hex(b[n + 1], high) && is_hex(b[n + 2], low) {
            assert(percent_bytes(b, i) =~= b.subrange(i, n) + seq![(16 * high + low) as u8]
                + percent_bytes(b, n + 3));
        }
    }
}

/// Whether a byte writes the value of a hexadecimal digit.
pub open spec fn is_hex(b: u8, value: int) -> bool {
    0 <= value < 16 && (if value < 10 {
        b == '0' as u8 + value
    } else {
        b == 'a' as u8 + value - 10 || b == 'A' as u8 + value - 10
    })
}

// ---------------------------------------------------------------------
// What is taken out
// ---------------------------------------------------------------------

/// Whether an event neither opens nor closes a link or an image.
pub open spec fn is_inner(mark: MarkView) -> bool {
    !(mark is LinkStart) && !(mark is LinkEnd) && !(mark is ImageStart)
}

/// What stands for the events from `i` to `j`: markup as its text, everything
/// else as it is.
pub open spec fn kept_items(events: Seq<EventView>, i: int, j: int) -> Seq<ItemView> {
    Seq::new(
        (j - i) as nat,
        |k: int|
            match events[i + k].mark {
                MarkView::Html(s) => ItemView::Text(s),
                _ => ItemView::Keep((i + k) as nat),
            },
    )
}

/// Outside of images every event stays in its place, but for markup, which
/// becomes its text.
pub proof fn law_events_stay_in_place(events: Seq<EventView>, i: nat, j: nat, ids: Seq<Seq<char>>)
    requires
        i <= j <= events.len(),
        cleaned(events, i, ids).image is None,
        forall|k: int| i <= k < j ==> is_inner((#[trigger] events[k]).mark),
    ensures
        cleaned(events, j, ids) == (Cleaning {
            out: cleaned(events, i, ids).out + kept_items(events, i as int, j as int),
            ..cleaned(events, i, ids)
        }),
    decreases j - i,
{
    if i < j {
        let m = (j - 1) as nat;
        law_events_stay_in_place(events, i, m, ids);
        assert(is_inner(events[m as int].mark));
        let last = match events[m as int].mark {
            MarkView::Html(s) => ItemView::Text(s),
            _ => ItemView::Keep(m),
        };
        assert(kept_items(events, i as int, j as int) =~= kept_items(events, i as int, m as int).push(
            last,
        ));
        assert(cleaned(events, j, ids).out =~= cleaned(events, i, ids).out + kept_items(
            events,
            i as int,
            j as int,
        ));
    } else {
        assert(cleaned(events, j, ids).out =~= cleaned(events, i, ids).out + kept_items(
            events,
            i as int,
            j as int,
        ));
    }
}

/// A link that may lead where it does stays a link around what it holds. One
/// that may not loses its ends: what it holds stays, and behind it stands where
/// it led and that the link was removed.
pub proof fn law_link_is_kept_or_noted(
    events: Seq<EventView>,
    i: nat,
    j: nat,
    dest: Seq<char>,
    ids: Seq<Seq<char>>,
)
    requires
        i < j < events.len(),
        cleaned(events, i, ids).image is None,
        events[i as int].mark == MarkView::LinkStart(dest),
        events[j as int].mark == MarkView::LinkEnd,
        forall|k: int| i < k < j ==> is_inner((#[trigger] events[k]).mark),
    ensures
        ({
            let before = cleaned(events, i, ids);
            let after = cleaned(events, j + 1, ids);
            &&& after.image is None
            &&& after.open == before.open
            &&& after.out == before.out + (if allowed(dest, ids) {
                seq![ItemView::LinkStart(dest)] + kept_items(
                    events,
                    (i + 1) as int,
                    j as int,
                ) + seq![
                    ItemView::Keep(j),
                ]
            } else {
                kept_items(events, (i + 1) as int, j as int) + seq![
                    ItemView::Text(" ("@ + dest + " — link removed)"@),
                ]
            })
        }),
{
    let before = cleaned(events, i, ids);
    let inside = cleaned(events, i + 1, ids);
    law_events_stay_in_place(events, i + 1, j, ids);
    let after = cleaned(events, j + 1, ids);
    assert(after.open =~= before.open);
    let held = kept_items(events, (i + 1) as int, j as int);
    if allowed(dest, ids) {
        assert(after.out =~= before.out + (seq![ItemView::LinkStart(dest)] + held + seq![
            ItemView::Keep(j),
        ]));
    } else {
        assert(after.out =~= before.out + (held + seq![ItemView::Text(removal_note(dest))]));
    }
}

/// The text of the events from `i` to `j`.
pub open spec fn text_of(events: Seq<EventView>, i: int, j: int) -> Seq<char>
    decreases j - i,
{
    if i >= j {
        Seq::empty()
    } else {
        text_of(events, i, j - 1) + (match events[j - 1].mark {
            MarkView::Text(t) => t,
            _ => Seq::empty(),
        })
    }
}

/// An image is never shown: in its place stands its text and where it lies, as
/// a link where the page may lead there.
pub proof fn law_image_becomes_a_mention(
    events: Seq<EventView>,
    i: nat,
    j: nat,
    url: Seq<char>,
    ids: Seq<Seq<char>>,
)
    requires
        i < j < events.len(),
        cleaned(events, i, ids).image is None,
        events[i as int].mark == MarkView::ImageStart(url),
        events[j as int].mark == MarkView::ImageEnd,
        forall|k: int| i < k < j ==> !((#[trigger] events[k]).mark is ImageEnd),
    ensures
        ({
            let before = cleaned(events, i, ids);
            let after = cleaned(events, j + 1, ids);
            let alt = text_of(events, (i + 1) as int, j as int);
            let label = if trim(alt).len() == 0 {
                "image: "@ + url
            } else {
                "image: "@ + alt + " ("@ + url + ")"@
            };
            &&& after.image is None
            &&& after.open == before.open
            &&& after.out == before.out + (if allowed(url, ids) {
                seq![ItemView::LinkStart(url), ItemView::Text(label), ItemView::LinkEnd]
            } else {
                seq![ItemView::Text("["@ + label + "]"@)]
            })
        }),
{
    lemma_image(events, i, j, url, ids);
}

/// Within an image its text is gathered.
proof fn lemma_image(
    events: Seq<EventView>,
    i: nat,
    j: nat,
    url: Seq<char>,
    ids: Seq<Seq<char>>,
)
    requires
        i < j <= events.len(),
        cleaned(events, i, ids).image is None,
        events[i as int].mark == MarkView::ImageStart(url),
        forall|k: int| i < k < j ==> !((#[trigger] events[k]).mark is ImageEnd),
    ensures
        cleaned(events, j, ids) == (Cleaning {
            image: Some((url, text_of(events, (i + 1) as int, j as int))),
            ..cleaned(events, i, ids)
        }),
    decreases j - i,
{
    if i + 1 < j {
        let m = (j - 1) as nat;
        lemma_image(events, i, m, url, ids);
        assert(!(events[m as int].mark is ImageEnd));
        let t = text_of(events, (i + 1) as int, m as int);
        assert(t + Seq::<char>::empty() =~= t);
    }
}

// ---------------------------------------------------------------------
// The page
// ---------------------------------------------------------------------

/// The page shows every entity that is exported.
#[verifier::rlimit(40)]
pub proof fn law_page_shows_every_entity(
    mem: Seq<char>,
    date: Seq<char>,
    chain: Option<ChainSet>,
    capability: MountCapability,
    config: Option<MemConfig>,
    schema: Option<Arc<Schema>>,
    entities: Seq<Entity>,
    k: int,
)
    requires
        0 <= k < exported(entities, mem, false, chain).len(),
    ensures
        ({
            let keys = exported(entities, mem, false, chain);
            let page = html_document(mem, date, chain, capability, config, schema, entities);
            &&& shows(
                page,
                entity_text(entities[keys[k].at], schema, mem, key_ids(keys), entities),
            )
            &&& shows(page, index_entry(entities[keys[k].at]))
        }),
{
    let keys = exported(entities, mem, false, chain);
    let ids = key_ids(keys);
    let page = html_document(mem, date, chain, capability, config, schema, entities);
    let head = identity_text(mem, date, chain, capability, config, schema, keys.len());
    let index = index_text(keys, entities);
    let body = entities_text(keys, schema, mem, ids, entities);
    let stubs = stubs_text(exported(entities, mem, true, chain));
    let end = "</body>\n</html>\n"@;
    lemma_entity_stands(keys, schema, mem, ids, entities, k);
    assert(page =~= (head + index) + body + (stubs + end));
    lemma_shown_within(
        page,
        head + index,
        body,
        stubs + end,
        entity_text(entities[keys[k].at], schema, mem, ids, entities),
    );
    lemma_indexed(keys, entities, 0, k);
    let nav = "<nav>\n<h2>Index</h2>\n"@;
    lemma_shown_within(
        index,
        nav,
        index_from(keys, entities, 0),
        "</nav>\n"@,
        index_entry(entities[keys[k].at]),
    );
    assert(page =~= head + index + (body + stubs + end));
    lemma_shown_within(
        page,
        head,
        index,
        body + stubs + end,
        index_entry(entities[keys[k].at]),
    );
}

/// An entity stands among the entities.
proof fn lemma_entity_stands(
    keys: Seq<KeyView>,
    schema: Option<Arc<Schema>>,
    mem: Seq<char>,
    ids: Seq<Seq<char>>,
    entities: Seq<Entity>,
    k: int,
)
    requires
        0 <= k < keys.len(),
    ensures
        shows(
            entities_text(keys, schema, mem, ids, entities),
            entity_text(entities[keys[k].at], schema, mem, ids, entities),
        ),
    decreases keys.len(),
{
    let head = keys.drop_last();
    let before = entities_text(head, schema, mem, ids, entities);
    let last = entity_text(entities[keys.last().at], schema, mem, ids, entities);
    if k < keys.len() - 1 {
        lemma_entity_stands(head, schema, mem, ids, entities, k);
        assert(head[k] == keys[k]);
        lemma_shown_further(
            before,
            entity_text(entities[keys[k].at], schema, mem, ids, entities),
            last,
        );
    } else {
        lemma_shown_last(before, last);
    }
}

/// Where a group ends.
proof fn lemma_group_end(keys: Seq<KeyView>, group: Seq<char>, i: int)
    requires
        0 <= i <= keys.len(),
    ensures
        i <= group_end(keys, group, i) <= keys.len(),
        forall|j: int| i <= j < group_end(keys, group, i) ==> (#[trigger] keys[j]).group == group,
        group_end(keys, group, i) < keys.len() ==> keys[group_end(keys, group, i)].group != group,
    decreases keys.len() - i,
{
    if i < keys.len() && keys[i].group == group {
        lemma_group_end(keys, group, i + 1);
    }
}

/// The entries of a group stand in it.
proof fn lemma_entries(keys: Seq<KeyView>, entities: Seq<Entity>, from: int, to: int, k: int)
    requires
        from <= k < to,
    ensures
        shows(index_entries(keys, entities, from, to), index_entry(entities[keys[k].at])),
    decreases to - from,
{
    let p = index_entry(entities[keys[k].at]);
    let before = index_entries(keys, entities, from, to - 1);
    let last = index_entry(entities[keys[to - 1].at]);
    if k < to - 1 {
        lemma_entries(keys, entities, from, to - 1, k);
        lemma_shown_further(before, p, last);
    } else {
        lemma_shown_last(before, last);
    }
}

/// Every entity has its entry in the index.
#[verifier::rlimit(40)]
proof fn lemma_indexed(keys: Seq<KeyView>, entities: Seq<Entity>, i: int, k: int)
    requires
        0 <= i <= k < keys.len(),
    ensures
        shows(index_from(keys, entities, i), index_entry(entities[keys[k].at])),
    decreases keys.len() - i,
{
    let p = index_entry(entities[keys[k].at]);
    let end = group_end(keys, keys[i].group, i);
    lemma_group_end(keys, keys[i].group, i);
    assert(i < end) by {
        lemma_group_end(keys, keys[i].group, i + 1);
    }
    let front = "<h3>"@ + escaped(keys[i].group) + " ("@ + decimal((end - i) as nat)
        + ")</h3>\n<ul>\n"@;
    let mine = index_entries(keys, entities, i, end);
    let rest = index_from(keys, entities, end);
    let all = index_from(keys, entities, i);
    assert(all == front + mine + "</ul>\n"@ + rest);
    if k < end {
        lemma_entries(keys, entities, i, end, k);
        assert(front + mine + "</ul>\n"@ + rest =~= front + mine + ("</ul>\n"@ + rest));
        lemma_shown_within(all, front, mine, "</ul>\n"@ + rest, p);
    } else {
        lemma_indexed(keys, entities, end, k);
        assert(all =~= front + mine + "</ul>\n"@ + rest + Seq::empty());
        lemma_shown_within(all, front + mine + "</ul>\n"@, rest, Seq::empty(), p);
    }
}

/// The entry of an entity in the index is a link to it under its title.
pub proof fn law_index_entry_links_to_the_entity(e: Entity)
    ensures
        shows(index_entry(e), "<a href=\"#"@ + escaped(e.id.0@) + "\">"@ + escaped(e.title@)),
{
    let p = "<a href=\"#"@ + escaped(e.id.0@) + "\">"@ + escaped(e.title@);
    assert("<li><a href=\"#"@ =~= "<li>"@ + "<a href=\"#"@) by {
        reveal_strlit("<li><a href=\"#");
        reveal_strlit("<li>");
        reveal_strlit("<a href=\"#");
    }
    assert(index_entry(e) =~= "<li>"@ + p + "</a></li>\n"@);
    lemma_around(index_entry(e), "<li>"@, p, "</a></li>\n"@);
}

/// An entity's text begins as a section under the entity's id, which is what
/// links lead to, and holds its title and type, a row for every field, every
/// section that holds text under its heading, and a line for every edge.
#[verifier::rlimit(40)]
pub proof fn law_entity_text_holds_the_entity(
    e: Entity,
    schema: Option<Arc<Schema>>,
    mem: Seq<char>,
    ids: Seq<Seq<char>>,
    entities: Seq<Entity>,
)
    ensures
        ({
            let t = entity_text(e, schema, mem, ids, entities);
            &&& starts(t, "<section class=\"entity\" id=\""@ + escaped(e.id.0@) + "\">\n"@)
            &&& shows(t, "<h2>"@ + escaped(e.title@) + "</h2>"@)
            &&& shows(t, "<span class=\"badge\">"@ + escaped(e.entity_type@) + "</span>"@)
            &&& forall|k: int|
                0 <= k < e.metadata@.len() ==> shows(t, meta_row(#[trigger] e.metadata@[k]))
            &&& forall|k: int|
                0 <= k < e.sections@.len() && trim((#[trigger] e.sections@[k]).1@).len() > 0
                    ==> shows(
                    t,
                    "<h3>"@ + escaped(heading_of(schema, e.entity_type@, e.sections@[k].0@))
                        + "</h3>\n"@ + safe_html(resolved(e.sections@[k].1@, mem, ids), ids),
                )
            &&& forall|k: int|
                0 <= k < e.relationships@.len() ==> shows(
                    t,
                    edge_line(
                        (
                            (#[trigger] e.relationships@[k]).rel_type@,
                            e.relationships@[k].target.0@,
                        ),
                        mem,
                        ids,
                        entities,
                    ),
                )
        }),
{
    let t = entity_text(e, schema, mem, ids, entities);
    let meta = meta_table(e.metadata@);
    let sections = sections_text(e.sections@, e.entity_type@, schema, mem, ids);
    let edges = edges_text(views(e.relationships@), mem, ids, entities);
    let end = "</section>\n"@;
    let head = entity_head(e);
    assert(t == head + meta + sections + edges + end);
    lemma_entity_head(e);
    let first = "<section class=\"entity\" id=\""@ + escaped(e.id.0@) + "\">\n"@;
    let title = "<h2>"@ + escaped(e.title@) + "</h2>"@;
    let badge = "<span class=\"badge\">"@ + escaped(e.entity_type@) + "</span>"@;
    lemma_shown_on(head, first, meta, sections);
    lemma_shown_on(head, title, meta, sections);
    lemma_shown_on(head, badge, meta, sections);
    lemma_shown_on(head + meta + sections, first, edges, end);
    lemma_shown_on(head + meta + sections, title, edges, end);
    lemma_shown_on(head + meta + sections, badge, edges, end);
    assert forall|k: int| 0 <= k < e.metadata@.len() implies shows(
        t,
        meta_row(#[trigger] e.metadata@[k]),
    ) by {
        let p = meta_row(e.metadata@[k]);
        lemma_meta_row(e.metadata@, k);
        let rows = meta_rows(e.metadata@);
        lemma_shown_within(meta, "<table class=\"meta\">\n"@, rows, "</table>\n"@, p);
        assert(t =~= head + meta + (sections + edges + end));
        lemma_shown_within(t, head, meta, sections + edges + end, p);
    }
    assert forall|k: int|
        0 <= k < e.sections@.len() && trim((#[trigger] e.sections@[k]).1@).len() > 0 implies shows(
        t,
        "<h3>"@ + escaped(heading_of(schema, e.entity_type@, e.sections@[k].0@)) + "</h3>\n"@
            + safe_html(resolved(e.sections@[k].1@, mem, ids), ids),
    ) by {
        let p = "<h3>"@ + escaped(heading_of(schema, e.entity_type@, e.sections@[k].0@))
            + "</h3>\n"@ + safe_html(resolved(e.sections@[k].1@, mem, ids), ids);
        lemma_section(e.sections@, e.entity_type@, schema, mem, ids, k);
        assert(t =~= (head + meta) + sections + (edges + end));
        lemma_shown_within(t, head + meta, sections, edges + end, p);
    }
    assert forall|k: int| 0 <= k < e.relationships@.len() implies shows(
        t,
        edge_line(
            ((#[trigger] e.relationships@[k]).rel_type@, e.relationships@[k].target.0@),
            mem,
            ids,
            entities,
        ),
    ) by {
        let edge = (e.relationships@[k].rel_type@, e.relationships@[k].target.0@);
        let p = edge_line(edge, mem, ids, entities);
        let vs = views(e.relationships@);
        assert(vs[k] == edge);
        assert(vs.contains(edge));
        let less = |a: (Seq<char>, Seq<char>), b: (Seq<char>, Seq<char>)| pair_less(a, b);
        lemma_same_members(vs, less, edge);
        let all = sorted(vs, less);
        let at = choose|at: int| 0 <= at < all.len() && all[at] == edge;
        lemma_edge(all, mem, ids, entities, at);
        lemma_shown_within(
            edges,
            "<h3>Relationships</h3>\n<ul class=\"reltable\">\n"@,
            edge_lines(all, mem, ids, entities),
            "</ul>\n"@,
            p,
        );
        assert(t =~= (head + meta + sections) + edges + end);
        lemma_shown_within(t, head + meta + sections, edges, end, p);
    }
}

/// A field and its value in the table of fields.
pub open spec fn meta_row(field: (String, MetadataValue)) -> Seq<char> {
    "<tr><td>"@ + escaped(field.0@) + "</td><td>"@ + escaped(
        match field.1 {
            MetadataValue::String(s) => s@,
            MetadataValue::Other(s) => s@,
        },
    ) + "</td></tr>\n"@
}

/// The head of an entity's text.
spec fn entity_head(e: Entity) -> Seq<char> {
    "<section class=\"entity\" id=\""@ + escaped(e.id.0@) + "\">\n<h2>"@ + escaped(e.title@)
        + "</h2>\n<span class=\"badge\">"@ + escaped(e.entity_type@)
        + "</span> <span class=\"badge\">"@ + escaped(e.id.0@) + "</span>\n"@
}

/// What the head of an entity's text shows.
#[verifier::rlimit(40)]
proof fn lemma_entity_head(e: Entity)
    ensures
        starts(
            entity_head(e),
            "<section class=\"entity\" id=\""@ + escaped(e.id.0@) + "\">\n"@,
        ),
        shows(
            entity_head(e),
            "<section class=\"entity\" id=\""@ + escaped(e.id.0@) + "\">\n"@,
        ),
        shows(entity_head(e), "<h2>"@ + escaped(e.title@) + "</h2>"@),
        shows(entity_head(e), "<span class=\"badge\">"@ + escaped(e.entity_type@) + "</span>"@),
{
    let (id, title, kind) = (escaped(e.id.0@), escaped(e.title@), escaped(e.entity_type@));
    let open = "<section class=\"entity\" id=\""@;
    assert("\">\n<h2>"@ =~= "\">\n"@ + "<h2>"@) by {
        reveal_strlit("\">\n<h2>");
        reveal_strlit("\">\n");
        reveal_strlit("<h2>");
    }
    assert("</h2>\n<span class=\"badge\">"@ =~= "</h2>"@ + "\n"@ + "<span class=\"badge\">"@) by {
        reveal_strlit("</h2>\n<span class=\"badge\">");
        reveal_strlit("</h2>");
        reveal_strlit("\n");
        reveal_strlit("<span class=\"badge\">");
    }
    assert("</span> <span class=\"badge\">"@ =~= "</span>"@ + " <span class=\"badge\">"@) by {
        reveal_strlit("</span> <span class=\"badge\">");
        reveal_strlit("</span>");
        reveal_strlit(" <span class=\"badge\">");
    }
    let first = open + id + "\">\n"@;
    let second = "<h2>"@ + title + "</h2>"@;
    let third = "<span class=\"badge\">"@ + kind + "</span>"@;
    let z3 = " <span class=\"badge\">"@ + id + "</span>\n"@;
    let a2 = first + second + "\n"@;
    let t = entity_head(e);
    assert(open + id + ("\">\n"@ + "<h2>"@) + title + ("</h2>"@ + "\n"@
        + "<span class=\"badge\">"@) =~= a2 + "<span class=\"badge\">"@);
    let b = a2 + "<span class=\"badge\">"@ + kind;
    assert(b + ("</span>"@ + " <span class=\"badge\">"@) + id + "</span>\n"@ =~= a2 + third + z3);
    assert(t == a2 + third + z3);
    lemma_around(t, a2, third, z3);
    lemma_shown_last(first, second);
    lemma_shown_further(first + second, second, "\n"@);
    lemma_shown_on(a2, second, third, z3);
    assert(first =~= Seq::<char>::empty() + first);
    lemma_shown_last(Seq::empty(), first);
    assert(first.subrange(0, first.len() as int) =~= first);
    lemma_shown_on(first, first, second, "\n"@);
    lemma_shown_on(a2, first, third, z3);
}

/// Every field has its row.
proof fn lemma_meta_row(meta: Seq<(String, MetadataValue)>, k: int)
    requires
        0 <= k < meta.len(),
    ensures
        shows(meta_rows(meta), meta_row(meta[k])),
    decreases meta.len(),
{
    let head = meta.drop_last();
    let before = meta_rows(head);
    let last = meta_row(meta.last());
    assert(meta_rows(meta) =~= before + last);
    if k < meta.len() - 1 {
        lemma_meta_row(head, k);
        assert(head[k] == meta[k]);
        lemma_shown_further(before, meta_row(meta[k]), last);
    } else {
        lemma_shown_last(before, last);
    }
}

/// Every section that holds text stands among the sections.
proof fn lemma_section(
    sections: Seq<(String, String)>,
    entity_type: Seq<char>,
    schema: Option<Arc<Schema>>,
    mem: Seq<char>,
    ids: Seq<Seq<char>>,
    k: int,
)
    requires
        0 <= k < sections.len(),
        trim(sections[k].1@).len() > 0,
    ensures
        shows(
            sections_text(sections, entity_type, schema, mem, ids),
            "<h3>"@ + escaped(heading_of(schema, entity_type, sections[k].0@)) + "</h3>\n"@
                + safe_html(resolved(sections[k].1@, mem, ids), ids),
        ),
    decreases sections.len(),
{
    let p = "<h3>"@ + escaped(heading_of(schema, entity_type, sections[k].0@)) + "</h3>\n"@
        + safe_html(resolved(sections[k].1@, mem, ids), ids);
    let head = sections.drop_last();
    let before = sections_text(head, entity_type, schema, mem, ids);
    let s = sections.last();
    let last = "<h3>"@ + escaped(heading_of(schema, entity_type, s.0@)) + "</h3>\n"@ + safe_html(
        resolved(s.1@, mem, ids),
        ids,
    );
    if trim(s.1@).len() > 0 {
        assert(sections_text(sections, entity_type, schema, mem, ids) =~= before + last);
    }
    if k < sections.len() - 1 {
        lemma_section(head, entity_type, schema, mem, ids, k);
        assert(head[k] == sections[k]);
        lemma_shown_further(before, p, last);
    } else {
        lemma_shown_last(before, last);
    }
}

/// Every edge has its line.
proof fn lemma_edge(
    edges: Seq<(Seq<char>, Seq<char>)>,
    mem: Seq<char>,
    ids: Seq<Seq<char>>,
    entities: Seq<Entity>,
    k: int,
)
    requires
        0 <= k < edges.len(),
    ensures
        shows(edge_lines(edges, mem, ids, entities), edge_line(edges[k], mem, ids, entities)),
    decreases edges.len(),
{
    let head = edges.drop_last();
    let before = edge_lines(head, mem, ids, entities);
    let last = edge_line(edges.last(), mem, ids, entities);
    if k < edges.len() - 1 {
        lemma_edge(head, mem, ids, entities, k);
        assert(head[k] == edges[k]);
        lemma_shown_further(before, edge_line(edges[k], mem, ids, entities), last);
    } else {
        lemma_shown_last(before, last);
    }
}

/// The line of an edge begins with its type and holds its target. It is a link
/// where the target is on the page; otherwise it says that the target is a
/// stub, unresolved or of another mem.
#[verifier::rlimit(40)]
pub proof fn law_edge_links_or_says_why(
    edge: (Seq<char>, Seq<char>),
    mem: Seq<char>,
    ids: Seq<Seq<char>>,
    entities: Seq<Entity>,
)
    ensures
        ({
            let t = edge_line(edge, mem, ids, entities);
            &&& starts(t, "<li>"@ + escaped(edge.0) + " → "@)
            &&& shows(t, escaped(edge.1))
            &&& ids.contains(edge.1) ==> shows(
                t,
                "<a href=\"#"@ + escaped(edge.1) + "\">"@ + escaped(edge.1) + "</a>"@,
            )
            &&& !ids.contains(edge.1) && names_stub(entities, edge.1) ==> shows(
                t,
                escaped(edge.1) + " (stub — unresolved reference)"@,
            )
            &&& !ids.contains(edge.1) && !names_stub(entities, edge.1) && starts(
                edge.1,
                mem + "--"@,
            ) ==> shows(t, escaped(edge.1) + " (unresolved)"@)
            &&& !ids.contains(edge.1) && !names_stub(entities, edge.1) && !starts(
                edge.1,
                mem + "--"@,
            ) ==> shows(t, escaped(edge.1) + " <span class=\"badge\">other mem</span>"@)
        }),
{
    let t = edge_line(edge, mem, ids, entities);
    let lead = "<li>"@ + escaped(edge.0) + " → "@;
    let id = escaped(edge.1);
    let rest = t.skip(lead.len() as int);
    assert(t =~= Seq::<char>::empty() + lead + rest);
    lemma_around(t, Seq::empty(), lead, rest);
    if ids.contains(edge.1) {
        assert("</a></li>\n"@ =~= "</a>"@ + "</li>\n"@) by {
            reveal_strlit("</a></li>\n");
            reveal_strlit("</a>");
            reveal_strlit("</li>\n");
        }
        let p = "<a href=\"#"@ + id + "\">"@ + id + "</a>"@;
        assert(t =~= lead + p + "</li>\n"@);
        lemma_around(t, lead, p, "</li>\n"@);
        let front = "<a href=\"#"@ + id + "\">"@;
        lemma_around(p, front, id, "</a>"@);
        lemma_within(t, p, id, lead.len() as int, front.len() as int);
    } else if names_stub(entities, edge.1) {
        assert(" (stub — unresolved reference)</span></li>\n"@
            =~= " (stub — unresolved reference)"@ + "</span></li>\n"@) by {
            reveal_strlit(" (stub — unresolved reference)</span></li>\n");
            reveal_strlit(" (stub — unresolved reference)");
            reveal_strlit("</span></li>\n");
        }
        let p = id + " (stub — unresolved reference)"@;
        let front = lead + "<span class=\"stub\">"@;
        assert(t =~= front + p + "</span></li>\n"@);
        lemma_around(t, front, p, "</span></li>\n"@);
        assert(p.subrange(0, id.len() as int) =~= id);
        lemma_within(t, p, id, front.len() as int, 0);
    } else if starts(edge.1, mem + "--"@) {
        assert(" (unresolved)</span></li>\n"@ =~= " (unresolved)"@ + "</span></li>\n"@) by {
            reveal_strlit(" (unresolved)</span></li>\n");
            reveal_strlit(" (unresolved)");
            reveal_strlit("</span></li>\n");
        }
        let p = id + " (unresolved)"@;
        let front = lead + "<span class=\"stub\">"@;
        assert(t =~= front + p + "</span></li>\n"@);
        lemma_around(t, front, p, "</span></li>\n"@);
        assert(p.subrange(0, id.len() as int) =~= id);
        lemma_within(t, p, id, front.len() as int, 0);
    } else {
        assert(" <span class=\"badge\">other mem</span></li>\n"@
            =~= " <span class=\"badge\">other mem</span>"@ + "</li>\n"@) by {
            reveal_strlit(" <span class=\"badge\">other mem</span></li>\n");
            reveal_strlit(" <span class=\"badge\">other mem</span>");
            reveal_strlit("</li>\n");
        }
        let p = id + " <span class=\"badge\">other mem</span>"@;
        assert(t =~= lead + p + "</li>\n"@);
        lemma_around(t, lead, p, "</li>\n"@);
        assert(p.subrange(0, id.len() as int) =~= id);
        lemma_within(t, p, id, lead.len() as int, 0);
    }
}

/// Every stub that is exported has its line.
proof fn lemma_stub(keys: Seq<KeyView>, k: int)
    requires
        0 <= k < keys.len(),
    ensures
        shows(
            stub_lines(keys),
            "<li class=\"stub\">"@ + escaped(keys[k].id) + " — referenced but never written</li>\n"@,
        ),
    decreases keys.len(),
{
    let p = "<li class=\"stub\">"@ + escaped(keys[k].id)
        + " — referenced but never written</li>\n"@;
    let head = keys.drop_last();
    let before = stub_lines(head);
    let last = "<li class=\"stub\">"@ + escaped(keys.last().id)
        + " — referenced but never written</li>\n"@;
    assert(stub_lines(keys) =~= before + last);
    if k < keys.len() - 1 {
        lemma_stub(head, k);
        assert(head[k] == keys[k]);
        lemma_shown_further(before, p, last);
    } else {
        lemma_shown_last(before, last);
    }
}

/// The page names every stub that is exported, and says of which mem it is,
/// who vouches for it and how many entities it holds.
#[verifier::rlimit(40)]
pub proof fn law_page_says_what_it_is(
    mem: Seq<char>,
    date: Seq<char>,
    chain: Option<ChainSet>,
    capability: MountCapability,
    config: Option<MemConfig>,
    schema: Option<Arc<Schema>>,
    entities: Seq<Entity>,
)
    ensures
        ({
            let page = html_document(mem, date, chain, capability, config, schema, entities);
            let stubs = exported(entities, mem, true, chain);
            let count = exported(entities, mem, false, chain).len();
            &&& forall|k: int|
                0 <= k < stubs.len() ==> shows(
                    page,
                    "<li class=\"stub\">"@ + escaped((#[trigger] stubs[k]).id)
                        + " — referenced but never written</li>\n"@,
                )
            &&& shows(page, "<strong>Mem:</strong> "@ + escaped(mem) + "</div>\n"@)
            &&& shows(page, " · "@ + decimal(count) + " entities</div>\n"@)
            &&& capability is ReadOnly ==> shows(page, "<strong>Origin:</strong> third-party"@)
            &&& capability is Write ==> shows(page, "<strong>Origin:</strong> first-party"@)
        }),
{
    let keys = exported(entities, mem, false, chain);
    let ids = key_ids(keys);
    let page = html_document(mem, date, chain, capability, config, schema, entities);
    let head = identity_text(mem, date, chain, capability, config, schema, keys.len());
    let index = index_text(keys, entities);
    let body = entities_text(keys, schema, mem, ids, entities);
    let named = exported(entities, mem, true, chain);
    let stubs = stubs_text(named);
    let end = "</body>\n</html>\n"@;
    assert forall|k: int| 0 <= k < named.len() implies shows(
        page,
        "<li class=\"stub\">"@ + escaped((#[trigger] named[k]).id)
            + " — referenced but never written</li>\n"@,
    ) by {
        let p = "<li class=\"stub\">"@ + escaped(named[k].id)
            + " — referenced but never written</li>\n"@;
        lemma_stub(named, k);
        lemma_shown_within(
            stubs,
            "<section class=\"entity\">\n<h2>Unresolved references (stubs)</h2>\n<ul>\n"@,
            stub_lines(named),
            "</ul>\n</section>\n"@,
            p,
        );
        lemma_shown_within(page, head + index + body, stubs, end, p);
    }
    lemma_identity(mem, date, chain, capability, config, schema, keys.len());
    let about = "<strong>Mem:</strong> "@ + escaped(mem) + "</div>\n"@;
    let size = " · "@ + decimal(keys.len()) + " entities</div>\n"@;
    let who = if capability is ReadOnly {
        "<strong>Origin:</strong> third-party"@
    } else {
        "<strong>Origin:</strong> first-party"@
    };
    lemma_shown_on(head, about, index, body);
    lemma_shown_on(head + index + body, about, stubs, end);
    lemma_shown_on(head, size, index, body);
    lemma_shown_on(head + index + body, size, stubs, end);
    lemma_shown_on(head, who, index, body);
    lemma_shown_on(head + index + body, who, stubs, end);
}

/// What the head of the page shows.
#[verifier::rlimit(40)]
proof fn lemma_identity(
    mem: Seq<char>,
    date: Seq<char>,
    chain: Option<ChainSet>,
    capability: MountCapability,
    config: Option<MemConfig>,
    schema: Option<Arc<Schema>>,
    count: nat,
)
    ensures
        ({
            let t = identity_text(mem, date, chain, capability, config, schema, count);
            &&& shows(t, "<strong>Mem:</strong> "@ + escaped(mem) + "</div>\n"@)
            &&& shows(t, " · "@ + decimal(count) + " entities</div>\n"@)
            &&& shows(
                t,
                if capability is ReadOnly {
                    "<strong>Origin:</strong> third-party"@
                } else {
                    "<strong>Origin:</strong> first-party"@
                },
            )
        }),
{
    let t = identity_text(mem, date, chain, capability, config, schema, count);
    let title = escaped(crate::export_html::doc_title(mem, config));
    let h1 = crate::export_html::DOC_HEAD@ + "<title>"@ + title + "</title>\n"@
        + crate::export_html::STYLE@ + "<h1>"@ + title + "</h1>\n<div class=\"identity\">\n"@;
    let mem_line = identity_line("Mem"@, escaped(mem));
    let d = crate::export_html::description_line(config);
    let s = crate::export_html::subject_line(config);
    let schema_line = identity_line(
        "Schema"@,
        escaped(crate::export_html::schema_label(schema)),
    );
    let origin = identity_line("Origin"@, trust_label(capability));
    let c = crate::export_html::chain_line(chain);
    let size_line = identity_line(
        "Exported"@,
        escaped(date) + " · "@ + decimal(count) + " entities"@,
    );
    let end = "</div>\n"@;
    let h2 = h1 + mem_line;
    let h3 = h2 + d + s;
    let h4 = h3 + schema_line;
    let h5 = h4 + origin;
    let h6 = h5 + c + size_line;
    assert(t == h6 + end);
    let about = "<strong>Mem:</strong> "@ + escaped(mem) + "</div>\n"@;
    let size = " · "@ + decimal(count) + " entities</div>\n"@;
    let who = if capability is ReadOnly {
        "<strong>Origin:</strong> third-party"@
    } else {
        "<strong>Origin:</strong> first-party"@
    };
    lemma_identity_line("Mem"@, escaped(mem));
    assert(about =~= "<strong>"@ + "Mem"@ + ":</strong> "@ + escaped(mem) + "</div>\n"@) by {
        reveal_strlit("<strong>Mem:</strong> ");
        reveal_strlit("<strong>");
        reveal_strlit("Mem");
        reveal_strlit(":</strong> ");
        assert("<strong>Mem:</strong> "@ =~= "<strong>"@ + "Mem"@ + ":</strong> "@);
    }
    assert(h2 =~= h1 + mem_line + Seq::empty());
    lemma_shown_within(h2, h1, mem_line, Seq::empty(), about);
    lemma_shown_on(h2, about, d, s);
    lemma_shown_on(h3, about, schema_line, origin);
    lemma_shown_on(h5, about, c, size_line);
    lemma_shown_further(h6, about, end);
    lemma_origin(capability);
    assert(h5 =~= h4 + origin + Seq::empty());
    lemma_shown_within(h5, h4, origin, Seq::empty(), who);
    lemma_shown_on(h5, who, c, size_line);
    lemma_shown_further(h6, who, end);
    let value = escaped(date) + " · "@ + decimal(count) + " entities"@;
    assert(size =~= " · "@ + decimal(count) + " entities"@ + "</div>\n"@) by {
        reveal_strlit(" entities</div>\n");
        reveal_strlit(" entities");
        reveal_strlit("</div>\n");
        assert(" entities</div>\n"@ =~= " entities"@ + "</div>\n"@);
    }
    let front = "<div><strong>"@ + "Exported"@ + ":</strong> "@ + escaped(date);
    assert(size_line =~= front + size);
    lemma_shown_last(front, size);
    assert(h6 =~= (h5 + c) + size_line + Seq::empty());
    lemma_shown_within(h6, h5 + c, size_line, Seq::empty(), size);
    lemma_shown_further(h6, size, end);
}

/// A line of the head shows its label with its value.
proof fn lemma_identity_line(label: Seq<char>, value: Seq<char>)
    ensures
        shows(
            identity_line(label, value),
            "<strong>"@ + label + ":</strong> "@ + value + "</div>\n"@,
        ),
{
    let p = "<strong>"@ + label + ":</strong> "@ + value + "</div>\n"@;
    assert("<div><strong>"@ =~= "<div>"@ + "<strong>"@) by {
        reveal_strlit("<div><strong>");
        reveal_strlit("<div>");
        reveal_strlit("<strong>");
    }
    assert(identity_line(label, value) =~= "<div>"@ + p);
    lemma_shown_last("<div>"@, p);
}

/// The line on the origin names the party by the mount's capability.
#[verifier::rlimit(40)]
proof fn lemma_origin(capability: MountCapability)
    ensures
        shows(
            identity_line("Origin"@, trust_label(capability)),
            if capability is ReadOnly {
                "<strong>Origin:</strong> third-party"@
            } else {
                "<strong>Origin:</strong> first-party"@
            },
        ),
{
    let t = identity_line("Origin"@, trust_label(capability));
    let who = if capability is ReadOnly {
        "<strong>Origin:</strong> third-party"@
    } else {
        "<strong>Origin:</strong> first-party"@
    };
    reveal_strlit("<div><strong>");
    reveal_strlit("Origin");
    reveal_strlit(":</strong> ");
    reveal_strlit("<strong>Origin:</strong> third-party");
    reveal_strlit("<strong>Origin:</strong> first-party");
    reveal_strlit(
        "third-party (read-only mount — someone else's published content, quoted here)",
    );
    reveal_strlit("first-party (writable mem of this workspace)");
    let head = "<div><strong>"@ + "Origin"@ + ":</strong> "@;
    let front = seq!['<', 'd', 'i', 'v', '>'];
    let party = if capability is ReadOnly {
        "third-party"@
    } else {
        "first-party"@
    };
    reveal_strlit("third-party");
    reveal_strlit("first-party");
    let label = trust_label(capability);
    assert(label =~= party + label.skip(11));
    assert(head + party =~= front + who);
    assert(t =~= head + label + "</div>\n"@);
    assert(head + (party + label.skip(11)) + "</div>\n"@ =~= (head + party) + label.skip(11)
        + "</div>\n"@);
    lemma_shown_last(front, who);
    lemma_shown_on(front + who, who, label.skip(11), "</div>\n"@);
}

/// A section stands under the heading that its type declares for its key, and
/// under the key itself where none is declared.
pub proof fn law_section_has_its_heading(
    sections: Seq<SectionDef>,
    key: Seq<char>,
    i: int,
    k: int,
)
    requires
        0 <= i <= k <= sections.len(),
        forall|j: int| i <= j < k ==> (#[trigger] sections[j]).key@ != key,
        k < sections.len() ==> sections[k].key@ == key,
    ensures
        declared_heading(sections, key, i) == (if k < sections.len() {
            Some(sections[k].heading@)
        } else {
            None
        }),
    decreases k - i,
{
    if i < k {
        law_section_has_its_heading(sections, key, i + 1, k);
    }
}

/// What a section is headed with.
pub proof fn law_heading_is_the_declared_one(
    schema: Arc<Schema>,
    entity_type: Seq<char>,
    key: Seq<char>,
)
    ensures
        match schema.type_named(entity_type) {
            Some(t) => match declared_heading(t.sections@, key, 0) {
                Some(h) => heading_of(Some(schema), entity_type, key) == h,
                None => heading_of(Some(schema), entity_type, key) == key,
            },
            None => heading_of(Some(schema), entity_type, key) == key,
        },
        heading_of(None, entity_type, key) == key,
{
}

/// Code is blanked out, character by character, and prose stays: a character
/// is blanked just where its byte lies in code.
pub proof fn law_code_is_blanked(body: Seq<char>, events: Seq<EventView>, i: int, k: int)
    requires
        0 <= i < body.len(),
        0 <= k < events.len(),
    ensures
        masked(body, events).len() == body.len(),
        (events[k].mark is Code || events[k].mark is CodeBlock) && events[k].from <= byte_len(
            body.take(i),
        ) < events[k].to ==> masked(body, events)[i] == ' ',
        (forall|j: int|
            0 <= j < events.len() ==> !((#[trigger] events[j]).mark is Code || events[j].mark
                is CodeBlock) || byte_len(body.take(i)) < events[j].from || events[j].to
                <= byte_len(body.take(i))) ==> masked(body, events)[i] == body[i],
{
}

} // verus!
