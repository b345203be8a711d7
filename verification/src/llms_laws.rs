//! What holds of the text export: what stands in the document, and what a
//! reference becomes.

use crate::engine::MountedBackend;
use crate::entity::{entity_of, ids_unique, lemma_entity_index, Entity};
use crate::export_llms_txt::{
    document_from, ended, fence_line, folded, header_text, heading_text, id_titles,
    law_document_shows_written_entities_once, link_label, link_target, linkified, linkified_from,
    links_sentence, llms_document, mount_pin, ordered_ids, owned_by, owned_elsewhere,
    provenance_line, resolve, subject_of, titled, typed_text, wider_lines, wider_text,
    wiki_link_text, without_frontmatter, LlmsTxtContext,
};
use crate::sort::{lemma_same_members, pair_less};
use crate::text::{
    closed_lines, decimal, find, is_line, is_space, join, law_lines_read_back, lemma_around,
    lemma_next_char, lemma_next_char_skips, lemma_shown_further, lemma_shown_last, lemma_shown_on,
    lemma_within, lines, next_char, occurs_at, opt_text, shows, starts, strip_all, trim,
};
use crate::workspace::{MemConfig, MountCapability};
use vstd::prelude::*;

verus! {

// ---------------------------------------------------------------------
// The document
// ---------------------------------------------------------------------

/// The text of an entity in the document: its markdown without frontmatter,
/// with its type, its references rewritten.
pub open spec fn shown_text(
    e: Entity,
    entities: Seq<Entity>,
    prefix: Seq<char>,
    mem: Seq<char>,
) -> Seq<char> {
    linkified(
        typed_text(without_frontmatter(e.markdown@), e.entity_type@),
        id_titles(entities),
        prefix,
        mem,
    )
}

/// The document of one id more begins with the document so far. Where the id
/// has an entity, the entity's text stands right behind that, and a rule on a
/// line of its own ends it.
pub proof fn law_document_goes_on(
    header: Seq<char>,
    ids: Seq<Seq<char>>,
    id: Seq<char>,
    entities: Seq<Entity>,
    prefix: Seq<char>,
    mem: Seq<char>,
)
    ensures
        ({
            let so_far = document_from(header, ids, entities, prefix, mem);
            let all = document_from(header, ids.push(id), entities, prefix, mem);
            &&& starts(all, so_far)
            &&& match entity_of(entities, id) {
                Some(e) => occurs_at(
                    all,
                    shown_text(e, entities, prefix, mem),
                    so_far.len() as int,
                ) && occurs_at(all, "\n\n---\n\n"@, all.len() - 7),
                None => all == so_far,
            }
        }),
{
    let so_far = document_from(header, ids, entities, prefix, mem);
    let all = document_from(header, ids.push(id), entities, prefix, mem);
    assert(ids.push(id).drop_last() =~= ids);
    assert(ids.push(id).last() == id);
    match entity_of(entities, id) {
        Some(e) => {
            lemma_block(so_far, shown_text(e, entities, prefix, mem));
        },
        None => {
            assert(all.subrange(0, so_far.len() as int) =~= so_far);
        },
    }
}

/// A text, ended by a rule.
#[verifier::rlimit(40)]
proof fn lemma_block(a: Seq<char>, b: Seq<char>)
    ensures
        ({
            let all = ended(a + b) + "\n---\n\n"@;
            &&& starts(all, a)
            &&& occurs_at(all, b, a.len() as int)
            &&& occurs_at(all, "\n\n---\n\n"@, all.len() - 7)
        }),
{
    let t = ended(a + b);
    let all = t + "\n---\n\n"@;
    assert(all.subrange(0, a.len() as int) =~= a);
    assert(all.subrange(a.len() as int, (a.len() + b.len()) as int) =~= b);
    assert("\n\n---\n\n"@ =~= seq!['\n'] + "\n---\n\n"@ && "\n---\n\n"@.len() == 6) by {
        reveal_strlit("\n---\n\n");
        reveal_strlit("\n\n---\n\n");
    }
    assert(t[t.len() - 1] == '\n');
    assert(all.subrange(all.len() - 7, all.len() as int) =~= seq!['\n'] + "\n---\n\n"@);
}

/// The document begins with its header, and behind the document of the first
/// `k` ids stands the text of the next: the entities follow each other in the
/// order of the ids, and none takes the place of another.
#[verifier::rlimit(40)]
pub proof fn law_document_is_header_and_entities(
    header: Seq<char>,
    ids: Seq<Seq<char>>,
    entities: Seq<Entity>,
    prefix: Seq<char>,
    mem: Seq<char>,
    k: int,
)
    requires
        0 <= k <= ids.len(),
    ensures
        starts(document_from(header, ids, entities, prefix, mem), header),
        starts(
            document_from(header, ids, entities, prefix, mem),
            document_from(header, ids.take(k), entities, prefix, mem),
        ),
        k < ids.len() ==> (entity_of(entities, ids[k]) matches Some(e) ==> occurs_at(
            document_from(header, ids, entities, prefix, mem),
            shown_text(e, entities, prefix, mem),
            document_from(header, ids.take(k), entities, prefix, mem).len() as int,
        )),
    decreases ids.len(),
{
    let all = document_from(header, ids, entities, prefix, mem);
    if ids.len() == 0 {
        assert(all.subrange(0, all.len() as int) =~= all);
        assert(ids.take(k) =~= ids);
    } else {
        let head = ids.drop_last();
        let id = ids.last();
        assert(head.push(id) =~= ids);
        law_document_goes_on(header, head, id, entities, prefix, mem);
        let so_far = document_from(header, head, entities, prefix, mem);
        let front = document_from(header, ids.take(k), entities, prefix, mem);
        if k < ids.len() {
            law_document_is_header_and_entities(header, head, entities, prefix, mem, k);
            assert(head.take(k) =~= ids.take(k));
            lemma_within(all, so_far, front, 0, 0);
            if k < head.len() {
                assert(head[k] == ids[k]);
                if let Some(e) = entity_of(entities, ids[k]) {
                    lemma_within(
                        all,
                        so_far,
                        shown_text(e, entities, prefix, mem),
                        0,
                        front.len() as int,
                    );
                }
            } else {
                assert(ids.take(k) =~= head);
            }
        } else {
            law_document_is_header_and_entities(header, head, entities, prefix, mem, 0);
            assert(ids.take(k) =~= ids);
            assert(all.subrange(0, all.len() as int) =~= all);
        }
        lemma_within(all, so_far, header, 0, 0);
    }
}

/// The document of a mem shows every written entity of it.
pub proof fn law_document_shows_every_entity<B>(
    m: MountedBackend<B>,
    mem: Seq<char>,
    ctx: LlmsTxtContext,
    entities: Seq<Entity>,
    j: int,
)
    requires
        ids_unique(entities),
        0 <= j < entities.len(),
        entities[j].mem@ == mem,
        !entities[j].stub,
    ensures
        shows(
            llms_document(m, mem, ctx, entities),
            shown_text(entities[j], entities, ctx.href_prefix@, mem),
        ),
{
    let ids = ordered_ids(entities, mem);
    let id = entities[j].id.0@;
    law_document_shows_written_entities_once(entities, mem);
    assert(crate::export_llms_txt::holds_written(entities, mem, id));
    assert(ids.contains(id));
    let k = choose|k: int| 0 <= k < ids.len() && ids[k] == id;
    lemma_entity_index(entities, id, 0);
    let header = header_text(
        ctx,
        mem,
        mount_pin(m),
        m.mount.capability,
        subject_of(mem, m.mem_config),
        ids.len(),
    );
    law_document_is_header_and_entities(header, ids, entities, ctx.href_prefix@, mem, k);
    assert(entity_of(entities, id) == Some(entities[j]));
    assert(occurs_at(
        llms_document(m, mem, ctx, entities),
        shown_text(entities[j], entities, ctx.href_prefix@, mem),
        document_from(header, ids.take(k), entities, ctx.href_prefix@, mem).len() as int,
    ));
}

// ---------------------------------------------------------------------
// The text of an entity
// ---------------------------------------------------------------------

/// So many line feeds.
pub open spec fn blank_lines(n: nat) -> Seq<char> {
    Seq::new(n, |i: int| '\n')
}

/// Stripping line feeds takes those in front and nothing else.
pub proof fn law_strip_takes_leading_line_feeds(s: Seq<char>) -> (n: nat)
    ensures
        s == blank_lines(n) + strip_all(s, "\n"@),
        strip_all(s, "\n"@).len() > 0 ==> strip_all(s, "\n"@)[0] != '\n',
    decreases s.len(),
{
    reveal_strlit("\n");
    if s.len() > 0 && s[0] == '\n' {
        assert(s.subrange(0, 1) =~= "\n"@);
        let n = law_strip_takes_leading_line_feeds(s.skip(1));
        assert(s =~= blank_lines(n + 1) + strip_all(s.skip(1), "\n"@)) by {
            assert(s =~= seq!['\n'] + s.skip(1));
            assert(blank_lines(n + 1) =~= seq!['\n'] + blank_lines(n));
        }
        n + 1
    } else {
        if starts(s, "\n"@) {
            assert(s.subrange(0, 1)[0] == '\n');
        }
        assert(s =~= blank_lines(0) + s);
        0
    }
}

/// The text of an entity keeps the title line and what stands below it; the
/// type comes between them, on a line of its own.
pub proof fn law_type_stands_below_the_title(
    title: Seq<char>,
    blank: nat,
    body: Seq<char>,
    entity_type: Seq<char>,
)
    requires
        !title.contains('\n'),
        body.len() > 0 ==> body[0] != '\n',
    ensures
        typed_text(title + seq!['\n'] + blank_lines(blank) + body, entity_type) == title
            + "\n\n_Type: "@ + entity_type + "_\n\n"@ + body,
        typed_text(title, entity_type) == title + "\n\n_Type: "@ + entity_type + "_"@,
{
    let md = title + seq!['\n'] + blank_lines(blank) + body;
    assert forall|j: int| 0 <= j < title.len() implies md[j] != '\n' by {
        assert(md[j] == title[j]);
        assert(title.contains(title[j]));
    }
    lemma_next_char_skips(md, '\n', 0, title.len() as int);
    assert(md[title.len() as int] == '\n');
    assert(next_char(md, '\n', 0) == title.len());
    assert(md.take(title.len() as int) =~= title);
    assert(md.skip((title.len() + 1) as int) =~= blank_lines(blank) + body);
    lemma_strip_blank(blank, body);
    assert forall|j: int| 0 <= j < title.len() implies title[j] != '\n' by {
        assert(title.contains(title[j]));
    }
    lemma_next_char_skips(title, '\n', 0, title.len() as int);
}

/// Line feeds in front are stripped.
proof fn lemma_strip_blank(blank: nat, body: Seq<char>)
    requires
        body.len() > 0 ==> body[0] != '\n',
    ensures
        strip_all(blank_lines(blank) + body, "\n"@) == body,
    decreases blank,
{
    let s = blank_lines(blank) + body;
    reveal_strlit("\n");
    if blank > 0 {
        assert(s.subrange(0, 1) =~= "\n"@);
        assert(s.skip(1) =~= blank_lines((blank - 1) as nat) + body);
        lemma_strip_blank((blank - 1) as nat, body);
    } else {
        assert(s =~= body);
        if starts(s, "\n"@) {
            assert(s.subrange(0, 1)[0] == '\n');
        }
    }
}

/// The first fence.
proof fn lemma_fence(ls: Seq<Seq<char>>, i: int, at: int)
    requires
        0 <= i <= at < ls.len(),
        ls[at] == "---"@,
        forall|k: int| i <= k < at ==> #[trigger] ls[k] != "---"@,
    ensures
        fence_line(ls, i) == Some(at),
    decreases at - i,
{
    if i < at {
        lemma_fence(ls, i + 1, at);
    }
}

/// No fence.
proof fn lemma_no_fence(ls: Seq<Seq<char>>, i: int)
    requires
        0 <= i,
        forall|k: int| i <= k < ls.len() ==> #[trigger] ls[k] != "---"@,
    ensures
        fence_line(ls, i) is None,
    decreases ls.len() - i,
{
    if i < ls.len() {
        lemma_no_fence(ls, i + 1);
    }
}

/// Frontmatter is what stands between a first line of three dashes and the
/// next such line: it is cut with its fences, and the lines behind it stay.
/// A text that does not begin with a fence, and one in which no second fence
/// closes it, stays as it is.
#[verifier::rlimit(40)]
pub proof fn law_frontmatter_is_cut(
    front: Seq<Seq<char>>,
    body: Seq<Seq<char>>,
)
    requires
        forall|i: int| 0 <= i < front.len() ==> is_line(#[trigger] front[i]) && front[i] != "---"@,
        forall|i: int| 0 <= i < body.len() ==> is_line(#[trigger] body[i]),
    ensures
        body.len() > 0 && body[0].len() > 0 ==> without_frontmatter(
            closed_lines(seq!["---"@] + front + seq!["---"@] + body),
        ) == join(body, "\n"@),
        without_frontmatter(closed_lines(front + body)) == closed_lines(front + body) || (
        front.len() == 0 && body.len() > 0 && body[0] == "---"@),
        without_frontmatter(closed_lines(seq!["---"@] + front)) == closed_lines(
            seq!["---"@] + front,
        ),
{
    reveal_strlit("---");
    let all = seq!["---"@] + front + seq!["---"@] + body;
    let n = front.len() + 1;
    assert(is_line("---"@));
    assert forall|i: int| 0 <= i < all.len() implies is_line(#[trigger] all[i]) by {
        if i > 0 && i < n {
            assert(all[i] == front[i - 1]);
        } else if i > n {
            assert(all[i] == body[i - n - 1]);
        }
    }
    law_lines_read_back(all);
    assert forall|k: int| 1 <= k < n implies #[trigger] all[k] != "---"@ by {
        assert(all[k] == front[k - 1]);
    }
    assert(all[n as int] == "---"@);
    lemma_fence(all, 1, n as int);
    assert(all.skip((n + 1) as int) =~= body);
    if body.len() > 0 && body[0].len() > 0 {
        let t = join(body, "\n"@);
        lemma_join_front(body);
        assert(body[0].contains(body[0][0]));
        assert(t[0] == body[0][0]);
        assert(t =~= blank_lines(0) + t);
        lemma_strip_blank(0, t);
    }
    let plain = front + body;
    assert forall|i: int| 0 <= i < plain.len() implies is_line(#[trigger] plain[i]) by {
        if i < front.len() {
            assert(plain[i] == front[i]);
        } else {
            assert(plain[i] == body[i - front.len()]);
        }
    }
    law_lines_read_back(plain);
    if front.len() > 0 {
        assert(plain[0] == front[0]);
    } else if body.len() > 0 {
        assert(plain[0] == body[0]);
    }
    let open = seq!["---"@] + front;
    assert forall|i: int| 0 <= i < open.len() implies is_line(#[trigger] open[i]) by {
        if i > 0 {
            assert(open[i] == front[i - 1]);
        }
    }
    law_lines_read_back(open);
    assert forall|k: int| 1 <= k < open.len() implies #[trigger] open[k] != "---"@ by {
        assert(open[k] == front[k - 1]);
    }
    lemma_no_fence(open, 1);
}

/// A joined list begins with its first part.
proof fn lemma_join_front(parts: Seq<Seq<char>>)
    requires
        parts.len() > 0,
    ensures
        join(parts, "\n"@).len() >= parts[0].len(),
        forall|i: int| 0 <= i < parts[0].len() ==> join(parts, "\n"@)[i] == #[trigger] parts[0][i],
    decreases parts.len(),
{
    if parts.len() > 1 {
        lemma_join_front(parts.drop_last());
        assert(parts.drop_last()[0] == parts[0]);
    }
}

// ---------------------------------------------------------------------
// References
// ---------------------------------------------------------------------

/// A text without blanks at its ends.
pub open spec fn is_trimmed(s: Seq<char>) -> bool {
    s.len() > 0 ==> !is_space(s[0]) && !is_space(s.last())
}

/// Such a text is not trimmed further.
proof fn lemma_trimmed(s: Seq<char>)
    requires
        is_trimmed(s),
    ensures
        trim(s) == s,
{
}

/// A character that a text does not hold is not found.
proof fn lemma_not_found(s: Seq<char>, c: char)
    requires
        !s.contains(c),
    ensures
        next_char(s, c, 0) == s.len(),
{
    lemma_next_char(s, c, 0);
    if next_char(s, c, 0) < s.len() {
        assert(s.contains(s[next_char(s, c, 0)]));
    }
}

/// A character that stands behind a text without it is found there.
proof fn lemma_found_behind(s: Seq<char>, c: char, rest: Seq<char>)
    requires
        !s.contains(c),
    ensures
        next_char(s + seq![c] + rest, c, 0) == s.len(),
{
    let t = s + seq![c] + rest;
    assert forall|j: int| 0 <= j < s.len() implies t[j] != c by {
        assert(t[j] == s[j]);
        assert(s.contains(s[j]));
    }
    lemma_next_char_skips(t, c, 0, s.len() as int);
    assert(t[s.len() as int] == c);
}

/// A reference names its target as it stands there, or what stands before a
/// `#`; behind a `|` stands its label.
pub proof fn law_reference_parts(
    target: Seq<char>,
    section: Seq<char>,
    label: Seq<char>,
)
    requires
        is_trimmed(target),
        is_trimmed(target + seq!['#'] + section),
        is_trimmed(label),
        !target.contains('#') && !target.contains('|') && !section.contains('|'),
    ensures
        link_target(target) == target,
        link_label(target) is None,
        link_target(target + seq!['#'] + section) == target,
        link_label(target + seq!['#'] + section) is None,
        link_target(target + seq!['|'] + label) == target,
        link_label(target + seq!['|'] + label) == Some(label),
{
    lemma_not_found(target, '|');
    lemma_not_found(target, '#');
    lemma_trimmed(target);
    assert(target.take(target.len() as int) =~= target);
    let deep = target + seq!['#'] + section;
    assert(!deep.contains('|')) by {
        if deep.contains('|') {
            let i = choose|i: int| 0 <= i < deep.len() && deep[i] == '|';
            if i < target.len() {
                assert(target[i] == '|');
            } else if i > target.len() {
                assert(section[i - target.len() - 1] == '|');
            }
        }
    }
    lemma_not_found(deep, '|');
    lemma_found_behind(target, '#', section);
    assert(deep.take(deep.len() as int) =~= deep);
    lemma_trimmed(deep);
    assert(deep.take(target.len() as int) =~= target);
    let named = target + seq!['|'] + label;
    lemma_found_behind(target, '|', label);
    assert(named.take(target.len() as int) =~= target);
    assert(named.skip((target.len() + 1) as int) =~= label);
    lemma_trimmed(label);
}

/// The first place of a text, where nothing before it can begin it.
proof fn lemma_found_at(s: Seq<char>, p: Seq<char>, from: int, at: int)
    requires
        0 <= from <= at,
        p.len() > 0,
        occurs_at(s, p, at),
        forall|j: int| from <= j < at ==> s[j] != p[0],
    ensures
        find(s, p, from) == Some(at),
    decreases at - from,
{
    if from < at {
        if occurs_at(s, p, from) {
            assert(s.subrange(from, from + p.len())[0] == p[0]);
        }
        lemma_found_at(s, p, from + 1, at);
    }
}

/// A text that nothing can begin is not found.
proof fn lemma_found_nowhere(s: Seq<char>, p: Seq<char>, from: int)
    requires
        0 <= from,
        p.len() > 0,
        forall|j: int| from <= j < s.len() ==> s[j] != p[0],
    ensures
        find(s, p, from) is None,
    decreases s.len() - from,
{
    if from + p.len() <= s.len() {
        if occurs_at(s, p, from) {
            assert(s.subrange(from, from + p.len())[0] == p[0]);
        }
        lemma_found_nowhere(s, p, from + 1);
    }
}

/// A reference in the midst of prose is replaced alone: what stands before it
/// and what stands behind it stay as they are.
#[verifier::rlimit(40)]
pub proof fn law_reference_is_replaced_alone(
    before: Seq<char>,
    inner: Seq<char>,
    behind: Seq<char>,
    list: Seq<(Seq<char>, Seq<char>)>,
    prefix: Seq<char>,
    source: Seq<char>,
)
    requires
        !before.contains('['),
        !inner.contains(']'),
        !behind.contains('['),
    ensures
        ({
            let body = before + seq!['[', '['] + inner + seq![']', ']'] + behind;
            linkified_from(body, body, list, prefix, source, 0) == before + wiki_link_text(
                inner,
                list,
                prefix,
                source,
            ) + behind
        }),
{
    let body = before + seq!['[', '['] + inner + seq![']', ']'] + behind;
    let open = crate::export_html::link_open();
    let close = crate::export_html::link_close();
    reveal_strlit("[[");
    reveal_strlit("]]");
    let start = before.len() as int;
    let end = (before.len() + 2 + inner.len()) as int;
    assert(open.len() == 2 && open[0] == '[' && open[1] == '[');
    assert(close.len() == 2 && close[0] == ']' && close[1] == ']');
    assert(body.subrange(start, start + 2) =~= open);
    assert(body.subrange(end, end + 2) =~= close);
    assert forall|j: int| 0 <= j < start implies body[j] != '[' by {
        assert(body[j] == before[j]);
        assert(before.contains(before[j]));
    }
    lemma_found_at(body, open, 0, start);
    assert forall|j: int| start + 2 <= j < end implies body[j] != ']' by {
        assert(body[j] == inner[j - start - 2]);
        assert(inner.contains(inner[j - start - 2]));
    }
    lemma_found_at(body, close, start + 2, end);
    assert forall|j: int| end + 2 <= j < body.len() implies body[j] != '[' by {
        assert(body[j] == behind[j - end - 2]);
        assert(behind.contains(behind[j - end - 2]));
    }
    lemma_found_nowhere(body, open, end + 2);
    assert(body.subrange(0, start) =~= before);
    assert(body.subrange(start + 2, end) =~= inner);
    assert(body.subrange(end + 2, body.len() as int) =~= behind);
    let link = wiki_link_text(inner, list, prefix, source);
    assert(linkified_from(body, body, list, prefix, source, end + 2) == behind);
    assert(linkified_from(body, body, list, prefix, source, 0) == before + link + behind);
}

/// A reference by the full id of a written entity becomes a markdown link to
/// the page of that entity, under its title with brackets as parentheses; one
/// that leads nowhere becomes plain text.
pub proof fn law_reference_becomes_a_link(
    entities: Seq<Entity>,
    j: int,
    source: Seq<char>,
    prefix: Seq<char>,
    lost: Seq<char>,
)
    requires
        ids_unique(entities),
        0 <= j < entities.len(),
        !entities[j].stub,
        is_trimmed(entities[j].id.0@),
        !entities[j].id.0@.contains('#') && !entities[j].id.0@.contains('|'),
        is_trimmed(lost),
        !lost.contains('#') && !lost.contains('|'),
        resolve(id_titles(entities), source, lost) is None,
    ensures
        wiki_link_text(entities[j].id.0@, id_titles(entities), Seq::empty(), source) == "["@
            + folded(entities[j].title@) + "](entity/"@ + entities[j].id.0@ + ")"@,
        prefix.len() > 0 ==> wiki_link_text(
            entities[j].id.0@,
            id_titles(entities),
            prefix,
            source,
        ) == "["@ + folded(entities[j].title@) + "]("@ + prefix + "/entity/"@ + entities[j].id.0@
            + ")"@,
        wiki_link_text(lost, id_titles(entities), prefix, source) == lost,
{
    let list = id_titles(entities);
    let e = entities[j];
    let id = e.id.0@;
    law_list_names_written_entities(entities, (id, e.title@));
    assert(list.contains((id, e.title@)));
    let at = choose|at: int| 0 <= at < list.len() && list[at] == (id, e.title@);
    crate::export_llms_txt::law_full_id_resolves(list, source, at);
    let k = resolve(list, source, id)->0;
    law_list_names_written_entities(entities, list[k]);
    assert(list.contains(list[k]));
    let i = choose|i: int|
        0 <= i < entities.len() && !(#[trigger] entities[i]).stub && entities[i].id.0@ == list[k].0
            && entities[i].title@ == list[k].1;
    assert(entities[i].id.0@ == entities[j].id.0@);
    assert(i == j);
    lemma_plain_target(id);
    lemma_plain_target(lost);
}

/// A plain target is its own and has no label.
proof fn lemma_plain_target(target: Seq<char>)
    requires
        is_trimmed(target),
        !target.contains('#') && !target.contains('|'),
    ensures
        link_target(target) == target,
        link_label(target) is None,
{
    assert((target + seq!['#'] + Seq::<char>::empty()).last() == '#');
    law_reference_parts(target, Seq::empty(), Seq::empty());
}

/// The list that references are resolved against names just the written
/// entities, by id and title.
pub proof fn law_list_names_written_entities(entities: Seq<Entity>, x: (Seq<char>, Seq<char>))
    ensures
        id_titles(entities).contains(x) <==> exists|i: int|
            0 <= i < entities.len() && !(#[trigger] entities[i]).stub && entities[i].id.0@ == x.0
                && entities[i].title@ == x.1,
{
    lemma_same_members(
        titled(entities),
        |a: (Seq<char>, Seq<char>), b: (Seq<char>, Seq<char>)| pair_less(a, b),
        x,
    );
    lemma_titled(entities, x);
}

/// The written entities by id and title.
proof fn lemma_titled(entities: Seq<Entity>, x: (Seq<char>, Seq<char>))
    ensures
        titled(entities).contains(x) <==> exists|i: int|
            0 <= i < entities.len() && !(#[trigger] entities[i]).stub && entities[i].id.0@ == x.0
                && entities[i].title@ == x.1,
    decreases entities.len(),
{
    let all = titled(entities);
    if entities.len() > 0 {
        let head = entities.drop_last();
        let rest = titled(head);
        let n = entities.len() - 1;
        lemma_titled(head, x);
        if all.contains(x) {
            let k = choose|k: int| 0 <= k < all.len() && all[k] == x;
            if k < rest.len() {
                assert(rest[k] == x);
                assert(rest.contains(x));
                let i = choose|i: int|
                    0 <= i < head.len() && !(#[trigger] head[i]).stub && head[i].id.0@ == x.0
                        && head[i].title@ == x.1;
                assert(entities[i] == head[i]);
            } else {
                assert(entities[n].id.0@ == x.0);
            }
        }
        if exists|i: int|
            0 <= i < entities.len() && !(#[trigger] entities[i]).stub && entities[i].id.0@ == x.0
                && entities[i].title@ == x.1 {
            let i = choose|i: int|
                0 <= i < entities.len() && !(#[trigger] entities[i]).stub && entities[i].id.0@
                    == x.0 && entities[i].title@ == x.1;
            if i < n {
                assert(head[i] == entities[i]);
                let k = choose|k: int| 0 <= k < rest.len() && rest[k] == x;
                assert(all[k] == x);
            } else {
                assert(all[rest.len() as int] == x);
            }
        }
    }
}

// ---------------------------------------------------------------------
// The header
// ---------------------------------------------------------------------

/// The header says under which name and on what subject the document stands,
/// under which schema, of how many entities, and who vouches for it.
#[verifier::rlimit(40)]
pub proof fn law_header_says_what_it_heads(
    ctx: LlmsTxtContext,
    mem: Seq<char>,
    pin: Seq<char>,
    capability: MountCapability,
    subject: Seq<char>,
    count: nat,
)
    ensures
        ({
            let t = header_text(ctx, mem, pin, capability, subject, count);
            &&& starts(
                t,
                "# "@ + (match opt_text(ctx.authority) {
                    Some(a) => a,
                    None => mem,
                }),
            )
            &&& shows(t, "Subject: "@ + subject)
            &&& shows(t, "\nSchema: "@ + pin)
            &&& shows(t, "\nEntities: "@ + decimal(count) + "\n"@)
            &&& capability is ReadOnly ==> shows(t, "\nProvenance: third-party"@)
            &&& capability is Write ==> shows(t, "\nProvenance: first-party"@)
        }),
{
    let name = match opt_text(ctx.authority) {
        Some(a) => a,
        None => mem,
    };
    let h0 = heading_text(opt_text(ctx.authority), mem, subject);
    let first = "# "@ + name;
    assert(h0 =~= Seq::<char>::empty() + first + h0.skip(first.len() as int));
    lemma_around(h0, Seq::empty(), first, h0.skip(first.len() as int));
    let h1 = h0 + "Subject: "@ + subject;
    let h2 = h1 + "\nSchema: "@ + pin;
    let h3 = h2 + "\nEntities: "@ + decimal(count);
    let line = provenance_line(capability, ctx.authority is Some);
    let h4 = h3 + "\nProvenance: "@ + line;
    let h5 = h4 + "\n\n"@ + wider_text(ctx.wider_project@);
    let t = header_text(ctx, mem, pin, capability, subject, count);
    let tail = h5
        + "Every non-stub entity of this Memstead graph follows, once, with its type and sections. "@
        + links_sentence(ctx.href_prefix@) + "\n\n---\n\n"@;
    assert(t == tail);
    assert(h1 =~= h0 + ("Subject: "@ + subject));
    lemma_shown_last(h0, "Subject: "@ + subject);
    assert(h2 =~= h1 + ("\nSchema: "@ + pin));
    lemma_shown_last(h1, "\nSchema: "@ + pin);
    let entries = "\nEntities: "@ + decimal(count) + "\n"@;
    assert(h4 =~= h2 + entries + h4.skip((h2.len() + entries.len()) as int)) by {
        reveal_strlit("\nProvenance: ");
        reveal_strlit("\n");
    }
    lemma_around(h4, h2, entries, h4.skip((h2.len() + entries.len()) as int));
    let who = if capability is ReadOnly {
        "\nProvenance: third-party"@
    } else {
        "\nProvenance: first-party"@
    };
    lemma_provenance(capability, ctx.authority is Some);
    let vouch = "\nProvenance: "@ + line;
    assert(h4 =~= h3 + vouch);
    lemma_shown_last(h3, vouch);
    lemma_around(h4, h3, vouch, Seq::empty());
    lemma_within(h4, vouch, who, h3.len() as int, 0);
    lemma_shown_on(h0, first, "Subject: "@, subject);
    lemma_shown_on(h1, first, "\nSchema: "@, pin);
    lemma_shown_on(h2, first, "\nEntities: "@, decimal(count));
    lemma_shown_on(h3, first, "\nProvenance: "@, line);
    let about = "Subject: "@ + subject;
    lemma_shown_on(h1, about, "\nSchema: "@, pin);
    lemma_shown_on(h2, about, "\nEntities: "@, decimal(count));
    lemma_shown_on(h3, about, "\nProvenance: "@, line);
    let under = "\nSchema: "@ + pin;
    lemma_shown_on(h2, under, "\nEntities: "@, decimal(count));
    lemma_shown_on(h3, under, "\nProvenance: "@, line);
    lemma_header_rest(h4, first, ctx);
    lemma_header_rest(h4, about, ctx);
    lemma_header_rest(h4, under, ctx);
    lemma_header_rest(h4, entries, ctx);
    lemma_header_rest(h4, who, ctx);
}

/// What the header shows down to its provenance it shows as a whole.
#[verifier::rlimit(40)]
proof fn lemma_header_rest(h4: Seq<char>, p: Seq<char>, ctx: LlmsTxtContext)
    requires
        shows(h4, p),
    ensures
        ({
            let t = h4 + "\n\n"@ + wider_text(ctx.wider_project@)
                + "Every non-stub entity of this Memstead graph follows, once, with its type and sections. "@
                + links_sentence(ctx.href_prefix@) + "\n\n---\n\n"@;
            shows(t, p) && (starts(h4, p) ==> starts(t, p))
        }),
{
    let h5 = h4 + "\n\n"@ + wider_text(ctx.wider_project@);
    lemma_shown_on(h4, p, "\n\n"@, wider_text(ctx.wider_project@));
    let all = "Every non-stub entity of this Memstead graph follows, once, with its type and sections. "@;
    lemma_shown_on(h5, p, all, links_sentence(ctx.href_prefix@));
    lemma_shown_further(h5 + all + links_sentence(ctx.href_prefix@), p, "\n\n---\n\n"@);
}

/// The line on provenance names the party by the mount's capability.
#[verifier::rlimit(40)]
proof fn lemma_provenance(capability: MountCapability, served: bool)
    ensures
        starts(
            "\nProvenance: "@ + provenance_line(capability, served),
            if capability is ReadOnly {
                "\nProvenance: third-party"@
            } else {
                "\nProvenance: first-party"@
            },
        ),
{
    reveal_strlit("\nProvenance: ");
    reveal_strlit("\nProvenance: third-party");
    reveal_strlit("\nProvenance: first-party");
    reveal_strlit("first-party (this deployment vouches for the content as its own)");
    reveal_strlit("third-party (this deployment does not vouch for the content)");
    reveal_strlit("first-party (authored in the workspace this export came from)");
    reveal_strlit("third-party (a read-only mount — someone else's published content)");
    let who = if capability is ReadOnly {
        "\nProvenance: third-party"@
    } else {
        "\nProvenance: first-party"@
    };
    let t = "\nProvenance: "@ + provenance_line(capability, served);
    assert(t.subrange(0, who.len() as int) =~= who);
}

/// The header names each address of the wider project with what is found
/// there.
#[verifier::rlimit(40)]
pub proof fn law_header_names_the_wider_project(
    ctx: LlmsTxtContext,
    mem: Seq<char>,
    pin: Seq<char>,
    capability: MountCapability,
    subject: Seq<char>,
    count: nat,
    k: int,
)
    requires
        0 <= k < ctx.wider_project@.len(),
    ensures
        shows(
            header_text(ctx, mem, pin, capability, subject, count),
            "- "@ + ctx.wider_project@[k].0@ + " — "@ + ctx.wider_project@[k].1@ + ".\n"@,
        ),
{
    let wider = ctx.wider_project@;
    let p = "- "@ + wider[k].0@ + " — "@ + wider[k].1@ + ".\n"@;
    lemma_wider(wider, k);
    let w = wider_text(wider);
    let ls = wider_lines(wider);
    lemma_around(w, "The wider project:\n"@, ls, "\n"@);
    let at = choose|at: int| #[trigger] occurs_at(ls, p, at);
    lemma_within(w, ls, p, "The wider project:\n"@.len() as int, at);
    let t = header_text(ctx, mem, pin, capability, subject, count);
    let front = heading_text(opt_text(ctx.authority), mem, subject) + "Subject: "@ + subject
        + "\nSchema: "@ + pin + "\nEntities: "@ + decimal(count) + "\nProvenance: "@
        + provenance_line(capability, ctx.authority is Some) + "\n\n"@;
    lemma_around(front + w, front, w, Seq::empty());
    let in_w = choose|in_w: int| #[trigger] occurs_at(w, p, in_w);
    lemma_within(front + w, w, p, front.len() as int, in_w);
    let all = "Every non-stub entity of this Memstead graph follows, once, with its type and sections. "@;
    lemma_shown_on(front + w, p, all, links_sentence(ctx.href_prefix@));
    lemma_shown_further(
        front + w + all + links_sentence(ctx.href_prefix@),
        p,
        "\n\n---\n\n"@,
    );
}

/// Each address has its line.
proof fn lemma_wider(wider: Seq<(String, String)>, k: int)
    requires
        0 <= k < wider.len(),
    ensures
        shows(
            wider_lines(wider),
            "- "@ + wider[k].0@ + " — "@ + wider[k].1@ + ".\n"@,
        ),
    decreases wider.len(),
{
    let p = "- "@ + wider[k].0@ + " — "@ + wider[k].1@ + ".\n"@;
    let head = wider_lines(wider.drop_last());
    let last = "- "@ + wider.last().0@ + " — "@ + wider.last().1@ + ".\n"@;
    assert(wider_lines(wider) =~= head + last);
    if k < wider.len() - 1 {
        lemma_wider(wider.drop_last(), k);
        lemma_shown_further(head, p, last);
    } else {
        lemma_shown_last(head, last);
    }
}

/// A labelled reference to a written entity becomes a link under its label; one
/// that leads nowhere leaves its label.
pub proof fn law_label_is_kept(
    list: Seq<(Seq<char>, Seq<char>)>,
    source: Seq<char>,
    target: Seq<char>,
    label: Seq<char>,
)
    requires
        is_trimmed(target),
        is_trimmed(label),
        !target.contains('#') && !target.contains('|'),
    ensures
        match resolve(list, source, target) {
            Some(k) => wiki_link_text(
                target + seq!['|'] + label,
                list,
                Seq::empty(),
                source,
            ) == "["@ + folded(label) + "](entity/"@ + list[k].0 + ")"@,
            None => wiki_link_text(target + seq!['|'] + label, list, Seq::empty(), source) == label,
        },
{
    assert((target + seq!['#'] + Seq::<char>::empty()).last() == '#');
    law_reference_parts(target, Seq::empty(), label);
}

/// In a link text only brackets are changed, each into the parenthesis of its
/// side.
pub proof fn law_title_keeps_its_characters(title: Seq<char>, i: int)
    requires
        0 <= i < title.len(),
    ensures
        folded(title).len() == title.len(),
        title[i] == '[' ==> folded(title)[i] == '(',
        title[i] == ']' ==> folded(title)[i] == ')',
        title[i] != '[' && title[i] != ']' ==> folded(title)[i] == title[i],
{
}

/// An id owns its path in its own mem, and elsewhere in every other.
pub proof fn law_id_owns_its_path(mem: Seq<char>, slug: Seq<char>, other: Seq<char>)
    requires
        forall|i: int| 0 <= i < mem.len() - 1 ==> !(#[trigger] mem[i] == '-' && mem[i + 1] == '-'),
        mem.len() > 0 ==> mem.last() != '-',
        other != mem,
    ensures
        owned_by(mem + seq!['-', '-'] + slug, mem, slug),
        !owned_by(mem + seq!['-', '-'] + slug, other, slug),
        owned_elsewhere(mem + seq!['-', '-'] + slug, other, slug),
        !owned_elsewhere(mem + seq!['-', '-'] + slug, mem, slug),
{
    crate::commit_laws::law_id_names_mem_and_path(mem, slug);
    reveal_strlit("--");
    let id = mem + seq!['-', '-'] + slug;
    let n = mem.len() as int;
    assert(id.subrange(n, n + 2) =~= "--"@);
    assert(occurs_at(id, "--"@, n));
    crate::text::lemma_find(id, "--"@, 0);
}

/// The subject of a document is the mem's description where it has one, and
/// its name otherwise.
pub proof fn law_subject_is_the_description(mem: Seq<char>, config: MemConfig)
    ensures
        config.description matches Some(d) ==> subject_of(mem, Some(config)) == d@,
        config.description is None ==> subject_of(mem, Some(config)) == mem,
        subject_of(mem, None) == mem,
{
}

} // verus!
