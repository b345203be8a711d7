//! One mem as one Markdown document that an agent reads whole: every non-stub
//! entity once, in the order of ids, with its type visible and its references
//! resolved to links that work from inside the document.

use crate::engine::{says_unmounted, Engine, MountedBackend};
use crate::entity::{entity_of, id_mem, id_path, ids_unique, Entity, EntityId};
use crate::error::EngineError;
use crate::export_html::{link_close, link_open};
use crate::markdown::{code_masked, mask_code_blocks_and_spans};
use crate::sort::{is_strict_order, pair_less, sorted, stable_sort, views, Ranked};
use crate::text::{
    chars_of, contains, decimal, decimal_of, find, find_chars, holds, join, join_list, lex_less,
    lines, lines_of, next_char, next_of, opt_text, own, same, slice_of, strip_all, strip_repeated,
    texts, trim, trimmed,
};
use crate::workspace::{MemConfig, MountCapability};
use vstd::prelude::*;

verus! {

/// What a deployment adds to the header of the document. An export to a file
/// has none of it.
#[derive(Debug, Clone)]
pub struct LlmsTxtContext {
    /// The host that serves the document.
    pub authority: Option<String>,
    /// What stands before `/entity/<id>` in a link; links are relative where
    /// it is empty.
    pub href_prefix: String,
    /// Addresses and what is found there.
    pub wider_project: Vec<(String, String)>,
}

impl Default for LlmsTxtContext {
    fn default() -> (r: LlmsTxtContext)
        ensures
            r.authority is None,
            r.href_prefix@ == Seq::<char>::empty(),
            r.wider_project@ == Seq::<(String, String)>::empty(),
    {
        LlmsTxtContext { authority: None, href_prefix: String::new(), wider_project: Vec::new() }
    }
}

// ---------------------------------------------------------------------
// Links
// ---------------------------------------------------------------------

/// A character of a title in a link text.
pub open spec fn folded_char(c: char) -> char {
    if c == '[' {
        '('
    } else if c == ']' {
        ')'
    } else {
        c
    }
}

/// A title in a link text: brackets become parentheses.
pub open spec fn folded(title: Seq<char>) -> Seq<char> {
    title.map_values(|c: char| folded_char(c))
}

/// A markdown link to an entity.
pub open spec fn md_link(prefix: Seq<char>, id: Seq<char>, title: Seq<char>) -> Seq<char> {
    if prefix.len() == 0 {
        "["@ + folded(title) + "](entity/"@ + id + ")"@
    } else {
        "["@ + folded(title) + "]("@ + prefix + "/entity/"@ + id + ")"@
    }
}

/// A markdown link to an entity. Brackets in the title become parentheses,
/// so that they cannot break the link text.
pub fn entity_md_link(href_prefix: &str, id: &str, title: &str) -> (r: String)
    ensures
        r@ == md_link(href_prefix@, id@, title@),
{
    let x = chars_of(title);
    let mut text = String::new();
    for i in 0..x.len()
        invariant
            x@ == title@,
            text@ == folded(x@).take(i as int),
    {
        let c: char = if x[i] == '[' {
            '('
        } else if x[i] == ']' {
            ')'
        } else {
            x[i]
        };
        text.push(c);
        assert(folded(x@).take(i + 1) =~= folded(x@).take(i as int).push(c));
    }
    assert(folded(x@).take(x@.len() as int) =~= folded(x@));
    if chars_of(href_prefix).len() == 0 {
        "[".to_owned().concat(&text).concat("](entity/").concat(id).concat(")")
    } else {
        "[".to_owned().concat(&text).concat("](").concat(href_prefix).concat("/entity/").concat(
            id,
        ).concat(")")
    }
}

/// No title can break a link text: the text holds no bracket.
pub proof fn law_folded_title_holds_no_bracket(title: Seq<char>)
    ensures
        folded(title).len() == title.len(),
        forall|i: int|
            0 <= i < title.len() ==> (#[trigger] folded(title)[i]) != '[' && folded(title)[i]
                != ']',
{
}

/// The first line from `i` on that fences frontmatter.
pub open spec fn fence_line(ls: Seq<Seq<char>>, i: int) -> Option<int>
    decreases ls.len() - i,
{
    if i < 0 || i >= ls.len() {
        None
    } else if ls[i] == "---"@ {
        Some(i)
    } else {
        fence_line(ls, i + 1)
    }
}

/// A document without its frontmatter and the empty lines behind it. What no
/// second fence closes is no frontmatter.
pub open spec fn without_frontmatter(md: Seq<char>) -> Seq<char> {
    let ls = lines(md);
    if ls.len() > 0 && ls[0] == "---"@ {
        match fence_line(ls, 1) {
            Some(j) => strip_all(join(ls.skip(j + 1), "\n"@), "\n"@),
            None => md,
        }
    } else {
        md
    }
}

/// Drop the frontmatter of an entity's markdown.
pub fn strip_frontmatter(md: &str) -> (r: String)
    ensures
        r@ == without_frontmatter(md@),
{
    let ls = lines_of(md);
    let ghost lv = texts(ls@);
    if ls.len() == 0 || !same(&ls[0], "---") {
        proof {
            if ls@.len() > 0 {
                assert(lv[0] == ls@[0]@);
            }
        }
        return own(md);
    }
    assert(lv[0] == ls@[0]@);
    let mut i: usize = 1;
    while i < ls.len()
        invariant
            1 <= i <= ls@.len(),
            lv == texts(ls@),
            lv == lines(md@),
            lv.len() > 0 && lv[0] == "---"@,
            fence_line(lv, 1) == fence_line(lv, i as int),
        decreases ls@.len() - i,
    {
        assert(lv[i as int] == ls@[i as int]@);
        if same(&ls[i], "---") {
            let mut body: Vec<String> = Vec::new();
            let start: usize = i + 1;
            let mut k: usize = start;
            while k < ls.len()
                invariant
                    start <= k <= ls@.len(),
                    lv == texts(ls@),
                    texts(body@) == lv.subrange(start as int, k as int),
                decreases ls@.len() - k,
            {
                let ghost done = texts(body@);
                body.push(ls[k].clone());
                assert(texts(body@) =~= done.push(ls@[k as int]@));
                assert(lv.subrange(start as int, k + 1) =~= lv.subrange(
                    start as int,
                    k as int,
                ).push(lv[k as int]));
                k = k + 1;
            }
            assert(lv.subrange(start as int, lv.len() as int) =~= lv.skip(start as int));
            return strip_repeated(&join_list(&body, "\n"), "\n");
        }
        i = i + 1;
    }
    own(md)
}

/// What an id and a title show.
pub open spec fn id_title(e: Entity) -> (Seq<char>, Seq<char>) {
    (e.id.0@, e.title@)
}

/// Whether an id names `slug` in the mem `mem`.
pub open spec fn owned_by(id: Seq<char>, mem: Seq<char>, slug: Seq<char>) -> bool {
    contains(id, "--"@) && id_mem(id) == mem && id_path(id) == slug
}

/// Whether an id names `slug` in another mem than `mem`.
pub open spec fn owned_elsewhere(id: Seq<char>, mem: Seq<char>, slug: Seq<char>) -> bool {
    contains(id, "--"@) && id_mem(id) != mem && id_path(id) == slug
}

/// The last entry of the id.
pub open spec fn by_id(list: Seq<(Seq<char>, Seq<char>)>, id: Seq<char>) -> Option<int>
    decreases list.len(),
{
    if list.len() == 0 {
        None
    } else if list.last().0 == id {
        Some(list.len() - 1)
    } else {
        by_id(list.drop_last(), id)
    }
}

/// The last entry of the slug in the mem itself.
pub open spec fn by_local_slug(
    list: Seq<(Seq<char>, Seq<char>)>,
    mem: Seq<char>,
    slug: Seq<char>,
) -> Option<int>
    decreases list.len(),
{
    if list.len() == 0 {
        None
    } else if owned_by(list.last().0, mem, slug) {
        Some(list.len() - 1)
    } else {
        by_local_slug(list.drop_last(), mem, slug)
    }
}

/// The entries of the slug in other mems: none, one, or too many to choose
/// from.
pub enum Owner {
    Nobody,
    One(int),
    Several,
}

/// Which entry of another mem owns the slug.
pub open spec fn foreign_owner(
    list: Seq<(Seq<char>, Seq<char>)>,
    mem: Seq<char>,
    slug: Seq<char>,
) -> Owner
    decreases list.len(),
{
    if list.len() == 0 {
        Owner::Nobody
    } else {
        let rest = foreign_owner(list.drop_last(), mem, slug);
        if owned_elsewhere(list.last().0, mem, slug) {
            match rest {
                Owner::Nobody => Owner::One(list.len() - 1),
                _ => Owner::Several,
            }
        } else {
            rest
        }
    }
}

/// The entry that a link target names: by its full id, else by a slug of the
/// source mem, else by a slug that one other mem alone owns.
pub open spec fn resolve(
    list: Seq<(Seq<char>, Seq<char>)>,
    source: Seq<char>,
    target: Seq<char>,
) -> Option<int> {
    match by_id(list, target) {
        Some(k) => Some(k),
        None => match by_local_slug(list, source, target) {
            Some(k) => Some(k),
            None => match foreign_owner(list, source, target) {
                Owner::One(k) => Some(k),
                _ => None,
            },
        },
    }
}

/// What each of the three ways finds, and that it finds nothing only where
/// there is nothing.
pub proof fn lemma_owners(
    list: Seq<(Seq<char>, Seq<char>)>,
    source: Seq<char>,
    target: Seq<char>,
)
    ensures
        by_id(list, target) matches Some(k) ==> 0 <= k < list.len() && list[k].0 == target,
        by_id(list, target) is None ==> forall|k: int|
            0 <= k < list.len() ==> (#[trigger] list[k]).0 != target,
        by_local_slug(list, source, target) matches Some(k) ==> 0 <= k < list.len() && owned_by(
            list[k].0,
            source,
            target,
        ),
        by_local_slug(list, source, target) is None ==> forall|k: int|
            0 <= k < list.len() ==> !owned_by((#[trigger] list[k]).0, source, target),
        match foreign_owner(list, source, target) {
            Owner::Nobody => forall|k: int|
                0 <= k < list.len() ==> !owned_elsewhere((#[trigger] list[k]).0, source, target),
            Owner::One(k) => 0 <= k < list.len() && owned_elsewhere(list[k].0, source, target)
                && forall|j: int|
                0 <= j < list.len() && j != k ==> !owned_elsewhere(
                    (#[trigger] list[j]).0,
                    source,
                    target,
                ),
            Owner::Several => exists|i: int, j: int|
                0 <= i < j < list.len() && owned_elsewhere(
                    (#[trigger] list[i]).0,
                    source,
                    target,
                ) && owned_elsewhere((#[trigger] list[j]).0, source, target),
        },
    decreases list.len(),
{
    if list.len() > 0 {
        let head = list.drop_last();
        lemma_owners(head, source, target);
        assert forall|k: int| 0 <= k < head.len() implies (#[trigger] list[k]) == head[k] by {}
        match foreign_owner(head, source, target) {
            Owner::One(k) => {
                assert(list[k] == head[k]);
                assert(list[list.len() - 1] == list.last());
            },
            Owner::Several => {
                let (i, j) = choose|i: int, j: int|
                    0 <= i < j < head.len() && owned_elsewhere(
                        (#[trigger] head[i]).0,
                        source,
                        target,
                    ) && owned_elsewhere((#[trigger] head[j]).0, source, target);
                assert(list[i] == head[i] && list[j] == head[j]);
            },
            Owner::Nobody => {},
        }
    }
}

/// A full id always resolves, to an entry of that id.
pub proof fn law_full_id_resolves(
    list: Seq<(Seq<char>, Seq<char>)>,
    source: Seq<char>,
    at: int,
)
    requires
        0 <= at < list.len(),
    ensures
        resolve(list, source, list[at].0) matches Some(k) && 0 <= k < list.len() && list[k].0
            == list[at].0,
{
    lemma_owners(list, source, list[at].0);
}

/// A slug of the source mem binds there, however many other mems reuse it.
pub proof fn law_local_slug_wins(
    list: Seq<(Seq<char>, Seq<char>)>,
    source: Seq<char>,
    slug: Seq<char>,
    at: int,
)
    requires
        0 <= at < list.len(),
        owned_by(list[at].0, source, slug),
        by_id(list, slug) is None,
    ensures
        resolve(list, source, slug) matches Some(k) && 0 <= k < list.len() && owned_by(
            list[k].0,
            source,
            slug,
        ),
{
    lemma_owners(list, source, slug);
}

/// A slug that no entry of the source mem owns resolves to the one entry of
/// another mem that owns it.
pub proof fn law_foreign_slug_resolves(
    list: Seq<(Seq<char>, Seq<char>)>,
    source: Seq<char>,
    slug: Seq<char>,
    at: int,
)
    requires
        0 <= at < list.len(),
        owned_elsewhere(list[at].0, source, slug),
        forall|j: int|
            0 <= j < list.len() && j != at ==> !owned_elsewhere(
                (#[trigger] list[j]).0,
                source,
                slug,
            ),
        by_id(list, slug) is None,
        by_local_slug(list, source, slug) is None,
    ensures
        resolve(list, source, slug) == Some(at),
{
    lemma_owners(list, source, slug);
}

/// A slug that no entry of the source mem and two entries of other mems own
/// resolves to nothing: nothing is guessed.
pub proof fn law_foreign_slug_is_never_guessed(
    list: Seq<(Seq<char>, Seq<char>)>,
    source: Seq<char>,
    slug: Seq<char>,
    i: int,
    j: int,
)
    requires
        0 <= i < j < list.len(),
        owned_elsewhere(list[i].0, source, slug),
        owned_elsewhere(list[j].0, source, slug),
        by_id(list, slug) is None,
        by_local_slug(list, source, slug) is None,
    ensures
        resolve(list, source, slug) is None,
{
    lemma_owners(list, source, slug);
}

/// An id is its mem, two dashes and its path, where it has the dashes.
proof fn lemma_id_parts(id: Seq<char>)
    requires
        contains(id, "--"@),
    ensures
        id == id_mem(id) + "--"@ + id_path(id),
{
    crate::text::lemma_find(id, "--"@, 0);
    let i = find(id, "--"@, 0)->0;
    assert(id.subrange(i, i + "--"@.len()) == "--"@);
    assert(id =~= id.take(i) + id.subrange(i, i + "--"@.len()) + id.skip(i + "--"@.len()));
}

/// Whether two lists hold the same entries.
pub open spec fn hold_alike(
    a: Seq<(Seq<char>, Seq<char>)>,
    b: Seq<(Seq<char>, Seq<char>)>,
) -> bool {
    forall|x: (Seq<char>, Seq<char>)| #[trigger] a.contains(x) <==> #[trigger] b.contains(x)
}

/// Whether no two entries have the same id.
pub open spec fn ids_apart(list: Seq<(Seq<char>, Seq<char>)>) -> bool {
    forall|i: int, j: int|
        0 <= i < list.len() && 0 <= j < list.len() && (#[trigger] list[i]).0 == (#[trigger] list[
            j]).0 ==> i == j
}

/// What one list resolves, another with the same entries resolves too, to the
/// same entry.
proof fn lemma_resolves_alike(
    a: Seq<(Seq<char>, Seq<char>)>,
    b: Seq<(Seq<char>, Seq<char>)>,
    source: Seq<char>,
    target: Seq<char>,
)
    requires
        ids_apart(a),
        ids_apart(b),
        hold_alike(a, b),
    ensures
        resolve(a, source, target) matches Some(i) ==> 0 <= i < a.len() && (resolve(
            b,
            source,
            target,
        ) matches Some(j) && 0 <= j < b.len() && a[i] == b[j]),
{
    lemma_owners(a, source, target);
    lemma_owners(b, source, target);
    assert forall|i: int| 0 <= i < a.len() implies b.contains(#[trigger] a[i]) by {
        assert(a.contains(a[i]));
    }
    assert forall|j: int| 0 <= j < b.len() implies a.contains(#[trigger] b[j]) by {
        assert(b.contains(b[j]));
    }
    match by_id(a, target) {
        Some(i) => {
            let j = choose|j: int| 0 <= j < b.len() && b[j] == a[i];
            assert(b[j].0 == target);
            assert(b[by_id(b, target)->0].0 == b[j].0);
        },
        None => {
            if let Some(j) = by_id(b, target) {
                let i = choose|i: int| 0 <= i < a.len() && a[i] == b[j];
                assert(a[i].0 == target);
            }
            match by_local_slug(a, source, target) {
                Some(i) => {
                    let j = choose|j: int| 0 <= j < b.len() && b[j] == a[i];
                    assert(owned_by(b[j].0, source, target));
                    let k = by_local_slug(b, source, target)->0;
                    lemma_id_parts(b[j].0);
                    lemma_id_parts(b[k].0);
                    assert(b[k].0 == b[j].0);
                },
                None => {
                    if let Some(j) = by_local_slug(b, source, target) {
                        let i = choose|i: int| 0 <= i < a.len() && a[i] == b[j];
                        assert(owned_by(a[i].0, source, target));
                    }
                    if let Owner::One(i) = foreign_owner(a, source, target) {
                        let j = choose|j: int| 0 <= j < b.len() && b[j] == a[i];
                        assert(owned_elsewhere(b[j].0, source, target));
                        assert forall|k: int| 0 <= k < b.len() && k != j implies !owned_elsewhere(
                            (#[trigger] b[k]).0,
                            source,
                            target,
                        ) by {
                            let h = choose|h: int| 0 <= h < a.len() && a[h] == b[k];
                            if owned_elsewhere(b[k].0, source, target) {
                                assert(owned_elsewhere(a[h].0, source, target));
                                assert(h == i);
                                assert(b[k].0 == b[j].0);
                            }
                        }
                        match foreign_owner(b, source, target) {
                            Owner::One(k) => {
                                assert(k == j);
                            },
                            Owner::Several => {
                                let (x, y) = choose|x: int, y: int|
                                    0 <= x < y < b.len() && owned_elsewhere(
                                        (#[trigger] b[x]).0,
                                        source,
                                        target,
                                    ) && owned_elsewhere((#[trigger] b[y]).0, source, target);
                                assert(x == j && y == j);
                            },
                            Owner::Nobody => {},
                        }
                    }
                },
            }
        },
    }
}

/// What a link target names does not depend on the order of the entries,
/// where no two have the same id.
pub proof fn law_resolution_ignores_order(
    a: Seq<(Seq<char>, Seq<char>)>,
    b: Seq<(Seq<char>, Seq<char>)>,
    source: Seq<char>,
    target: Seq<char>,
)
    requires
        ids_apart(a),
        ids_apart(b),
        hold_alike(a, b),
    ensures
        resolve(a, source, target) is Some <==> resolve(b, source, target) is Some,
        resolve(a, source, target) is Some ==> a[resolve(a, source, target)->0] == b[resolve(
            b,
            source,
            target,
        )->0],
{
    lemma_resolves_alike(a, b, source, target);
    lemma_resolves_alike(b, a, source, target);
}

/// The entry that a link target names.
fn resolve_target(list: &Vec<(String, String)>, source: &str, target: &str) -> (r: Option<usize>)
    ensures
        match r {
            Some(k) => resolve(views(list@), source@, target@) == Some(k as int) && k
                < list@.len(),
            None => resolve(views(list@), source@, target@) is None,
        },
{
    let ghost lv = views(list@);
    let mut full: Option<usize> = None;
    let mut local: Option<usize> = None;
    let mut foreign: Option<usize> = None;
    let mut several = false;
    assert(lv.take(0) =~= Seq::empty());
    for i in 0..list.len()
        invariant
            lv == views(list@),
            full matches Some(k) ==> k < i,
            local matches Some(k) ==> k < i,
            foreign matches Some(k) ==> k < i,
            by_id(lv.take(i as int), target@) == (match full {
                Some(k) => Some(k as int),
                None => None,
            }),
            by_local_slug(lv.take(i as int), source@, target@) == (match local {
                Some(k) => Some(k as int),
                None => None,
            }),
            foreign_owner(lv.take(i as int), source@, target@) == (if several {
                Owner::Several
            } else {
                match foreign {
                    Some(k) => Owner::One(k as int),
                    None => Owner::Nobody,
                }
            }),
    {
        assert(lv.take(i + 1).drop_last() =~= lv.take(i as int));
        assert(lv.take(i + 1).last() == list@[i as int]@);
        let id = &list[i].0;
        if same(id, target) {
            full = Some(i);
        }
        if holds(id, "--") {
            let eid = EntityId::canonical(id);
            if same(&eid.path(), target) {
                if same(&eid.mem(), source) {
                    local = Some(i);
                } else if foreign.is_none() && !several {
                    foreign = Some(i);
                } else {
                    several = true;
                }
            }
        }
    }
    assert(lv.take(lv.len() as int) =~= lv);
    if full.is_some() {
        full
    } else if local.is_some() {
        local
    } else if several {
        None
    } else {
        foreign
    }
}

/// What stands before the first `c`.
pub open spec fn before_char(s: Seq<char>, c: char) -> Seq<char> {
    s.take(next_char(s, c, 0))
}

/// The target of a wiki-link: what stands before a label and before a
/// section.
pub open spec fn link_target(inner: Seq<char>) -> Seq<char> {
    trim(before_char(trim(before_char(inner, '|')), '#'))
}

/// The label that an author gave a wiki-link.
pub open spec fn link_label(inner: Seq<char>) -> Option<Seq<char>> {
    let p = next_char(inner, '|', 0);
    if p < inner.len() {
        Some(trim(inner.skip(p + 1)))
    } else {
        None
    }
}

/// What stands for a wiki-link: a link under its label or under the title of
/// its target, or plain text where the target resolves to nothing.
pub open spec fn wiki_link_text(
    inner: Seq<char>,
    list: Seq<(Seq<char>, Seq<char>)>,
    prefix: Seq<char>,
    source: Seq<char>,
) -> Seq<char> {
    let target = link_target(inner);
    let label = link_label(inner);
    match resolve(list, source, target) {
        Some(k) => md_link(
            prefix,
            list[k].0,
            match label {
                Some(l) => l,
                None => list[k].1,
            },
        ),
        None => match label {
            Some(l) => l,
            None => target,
        },
    }
}

/// What stands before the first `c`.
fn before_char_of(s: &str, c: char) -> (r: String)
    ensures
        r@ == before_char(s@, c),
{
    let x = chars_of(s);
    let p = next_of(&x, c, 0);
    let r = slice_of(&x, 0, p);
    assert(r@ =~= s@.take(p as int));
    r
}

/// What stands for a wiki-link.
fn wiki_link_text_of(
    inner: &str,
    list: &Vec<(String, String)>,
    prefix: &str,
    source: &str,
) -> (r: String)
    ensures
        r@ == wiki_link_text(inner@, views(list@), prefix@, source@),
{
    let x = chars_of(inner);
    let p = next_of(&x, '|', 0);
    let label = if p < x.len() {
        let rest = slice_of(&x, p + 1, x.len());
        assert(rest@ =~= inner@.skip(p + 1));
        Some(trimmed(&rest))
    } else {
        None
    };
    let target = trimmed(&before_char_of(&trimmed(&before_char_of(inner, '|')), '#'));
    match resolve_target(list, source, &target) {
        Some(k) => {
            assert(views(list@)[k as int] == list@[k as int]@);
            let text = match &label {
                Some(l) => l,
                None => &list[k].1,
            };
            entity_md_link(prefix, &list[k].0, text)
        },
        None => match label {
            Some(l) => l,
            None => target,
        },
    }
}

/// `body` from `cursor` on with its wiki-links rewritten. Links are those of
/// `mask`, a view of the same length in which code is blanked out; every
/// character outside them is that of `body`.
pub open spec fn linkified_from(
    body: Seq<char>,
    mask: Seq<char>,
    list: Seq<(Seq<char>, Seq<char>)>,
    prefix: Seq<char>,
    source: Seq<char>,
    cursor: int,
) -> Seq<char>
    decreases body.len() - cursor,
{
    let rest = body.subrange(cursor, body.len() as int);
    match find(mask, link_open(), cursor) {
        None => rest,
        Some(start) => match find(mask, link_close(), start + 2) {
            None => rest,
            Some(end) => if cursor <= start && start + 2 <= end && end + 2 <= body.len() {
                body.subrange(cursor, start) + wiki_link_text(
                    body.subrange(start + 2, end),
                    list,
                    prefix,
                    source,
                ) + linkified_from(body, mask, list, prefix, source, end + 2)
            } else {
                rest
            },
        },
    }
}

/// Rewrite the wiki-links of `body`, given the view of it in which code is
/// blanked out.
pub fn linkify_masked(
    body: &str,
    mask: &Vec<char>,
    id_titles: &Vec<(String, String)>,
    href_prefix: &str,
    source_mem: &str,
) -> (r: String)
    requires
        mask@.len() == body@.len(),
    ensures
        r@ == linkified_from(
            body@,
            mask@,
            views(id_titles@),
            href_prefix@,
            source_mem@,
            0,
        ),
{
    let x = chars_of(body);
    let n: usize = x.len();
    let open: Vec<char> = vec!['[', '['];
    let close: Vec<char> = vec![']', ']'];
    assert(open@ =~= link_open());
    assert(close@ =~= link_close());
    let ghost lv = views(id_titles@);
    let ghost all = linkified_from(body@, mask@, lv, href_prefix@, source_mem@, 0);
    let mut out = String::new();
    let mut cursor: usize = 0;
    assert(out@ + all =~= all);
    loop
        invariant
            x@ == body@,
            n == x@.len(),
            mask@.len() == n,
            cursor <= n,
            open@ == link_open(),
            close@ == link_close(),
            lv == views(id_titles@),
            all == out@ + linkified_from(
                x@,
                mask@,
                lv,
                href_prefix@,
                source_mem@,
                cursor as int,
            ),
        ensures
            cursor <= n,
            all == out@ + x@.subrange(cursor as int, n as int),
        decreases n - cursor,
    {
        let start = match find_chars(mask, &open, cursor) {
            Some(i) => i,
            None => {
                break;
            },
        };
        let end = match find_chars(mask, &close, start + 2) {
            Some(i) => i,
            None => {
                break;
            },
        };
        let inner = slice_of(&x, start + 2, end);
        let piece = wiki_link_text_of(&inner, id_titles, href_prefix, source_mem);
        let lead = slice_of(&x, cursor, start);
        let ghost done = out@;
        out.append(&lead);
        out.append(&piece);
        proof {
            let tail = linkified_from(x@, mask@, lv, href_prefix@, source_mem@, end + 2);
            assert(done + (lead@ + piece@ + tail) =~= out@ + tail);
        }
        cursor = end + 2;
    }
    let tail = slice_of(&x, cursor, n);
    out.append(&tail);
    out
}

/// `body` with its wiki-links rewritten.
pub open spec fn linkified(
    body: Seq<char>,
    list: Seq<(Seq<char>, Seq<char>)>,
    prefix: Seq<char>,
    source: Seq<char>,
) -> Seq<char> {
    linkified_from(body, code_masked(body), list, prefix, source, 0)
}

/// Rewrite the wiki-links of `body` to markdown links. A full id resolves; a
/// slug binds in the source mem first; a slug of other mems resolves where
/// one of them alone owns it. What resolves to nothing becomes plain text.
/// Code is never rewritten. `id_titles` holds no stubs: the document has no
/// page for one.
pub fn linkify_wikilinks(
    body: String,
    id_titles: &Vec<(String, String)>,
    href_prefix: &str,
    source_mem: &str,
) -> (r: String)
    ensures
        r@ == linkified(body@, views(id_titles@), href_prefix@, source_mem@),
{
    let mask = mask_code_blocks_and_spans(&body);
    linkify_masked(&body, &mask, id_titles, href_prefix, source_mem)
}

/// A body whose prose opens or closes no wiki-link comes out as it is,
/// whatever its code holds.
pub proof fn law_no_wiki_link_no_change(
    body: Seq<char>,
    mask: Seq<char>,
    list: Seq<(Seq<char>, Seq<char>)>,
    prefix: Seq<char>,
    source: Seq<char>,
)
    requires
        !contains(mask, link_open()) || !contains(mask, link_close()),
    ensures
        linkified_from(body, mask, list, prefix, source, 0) == body,
{
    assert(body.subrange(0, body.len() as int) =~= body);
    crate::text::lemma_find(mask, link_open(), 0);
    match find(mask, link_open(), 0) {
        Some(start) => {
            crate::text::lemma_find(mask, link_close(), 0);
            crate::text::lemma_find(mask, link_close(), start + 2);
        },
        None => {},
    }
}

// ---------------------------------------------------------------------
// The document
// ---------------------------------------------------------------------

/// Ids and titles of the entities that are no stubs, in the order of the
/// store.
pub open spec fn titled(entities: Seq<Entity>) -> Seq<(Seq<char>, Seq<char>)>
    decreases entities.len(),
{
    if entities.len() == 0 {
        Seq::empty()
    } else if entities.last().stub {
        titled(entities.drop_last())
    } else {
        titled(entities.drop_last()).push(id_title(entities.last()))
    }
}

/// Ids and titles of the entities that are no stubs, in order.
pub open spec fn id_titles(entities: Seq<Entity>) -> Seq<(Seq<char>, Seq<char>)> {
    sorted(
        titled(entities),
        |a: (Seq<char>, Seq<char>), b: (Seq<char>, Seq<char>)| pair_less(a, b),
    )
}

/// The ids of the mem's entities that are no stubs, in the order of the
/// store.
pub open spec fn mem_ids(entities: Seq<Entity>, mem: Seq<char>) -> Seq<Seq<char>>
    decreases entities.len(),
{
    if entities.len() == 0 {
        Seq::empty()
    } else if entities.last().mem@ == mem && !entities.last().stub {
        mem_ids(entities.drop_last(), mem).push(entities.last().id.0@)
    } else {
        mem_ids(entities.drop_last(), mem)
    }
}

/// The ids of the mem's entities that are no stubs, in order.
pub open spec fn ordered_ids(entities: Seq<Entity>, mem: Seq<char>) -> Seq<Seq<char>> {
    sorted(mem_ids(entities, mem), |a: Seq<char>, b: Seq<char>| lex_less(a, b))
}

/// An id stands in the list of a mem where a written entity of the mem has it.
proof fn lemma_mem_ids(entities: Seq<Entity>, mem: Seq<char>, id: Seq<char>)
    ensures
        mem_ids(entities, mem).contains(id) <==> holds_written(entities, mem, id),
    decreases entities.len(),
{
    if entities.len() > 0 {
        let head = entities.drop_last();
        let e = entities.last();
        let ids = mem_ids(head, mem);
        lemma_mem_ids(head, mem, id);
        assert(forall|i: int| 0 <= i < head.len() ==> head[i] == entities[i]);
        if holds_written(entities, mem, id) {
            let i = choose|i: int|
                0 <= i < entities.len() && (#[trigger] entities[i]).id.0@ == id
                    && entities[i].mem@ == mem && !entities[i].stub;
            if i < head.len() {
                assert(head[i].id.0@ == id);
                let k = choose|k: int| 0 <= k < ids.len() && ids[k] == id;
                assert(mem_ids(entities, mem)[k] == id);
            } else {
                assert(mem_ids(entities, mem)[ids.len() as int] == id);
            }
        }
        if mem_ids(entities, mem).contains(id) {
            let k = choose|k: int|
                0 <= k < mem_ids(entities, mem).len() && mem_ids(entities, mem)[k] == id;
            if k < ids.len() {
                assert(ids[k] == id);
                assert(ids.contains(id));
                let i = choose|i: int|
                    0 <= i < head.len() && (#[trigger] head[i]).id.0@ == id && head[i].mem@ == mem
                        && !head[i].stub;
                assert(entities[i].id.0@ == id);
            } else {
                assert(entities[entities.len() - 1].id.0@ == id);
            }
        }
    }
}

/// Whether a written entity of a mem has the id.
pub open spec fn holds_written(entities: Seq<Entity>, mem: Seq<char>, id: Seq<char>) -> bool {
    exists|i: int|
        0 <= i < entities.len() && (#[trigger] entities[i]).id.0@ == id && entities[i].mem@ == mem
            && !entities[i].stub
}

/// Ids that are apart stay apart in the list of a mem.
proof fn lemma_mem_ids_apart(entities: Seq<Entity>, mem: Seq<char>)
    requires
        ids_unique(entities),
    ensures
        mem_ids(entities, mem).no_duplicates(),
    decreases entities.len(),
{
    if entities.len() > 0 {
        let head = entities.drop_last();
        assert(forall|i: int| 0 <= i < head.len() ==> head[i] == entities[i]);
        lemma_mem_ids_apart(head, mem);
        let e = entities.last();
        lemma_mem_ids(head, mem, e.id.0@);
        if holds_written(head, mem, e.id.0@) {
            let i = choose|i: int|
                0 <= i < head.len() && (#[trigger] head[i]).id.0@ == e.id.0@ && head[i].mem@
                    == mem && !head[i].stub;
            assert(entities[i].id.0@ == entities[entities.len() - 1].id.0@);
        }
        let ids = mem_ids(head, mem);
        assert(!ids.contains(e.id.0@));
        let out = mem_ids(entities, mem);
        assert forall|i: int, j: int|
            0 <= i < out.len() && 0 <= j < out.len() && i != j implies out[i] != out[j] by {
            if i < ids.len() && j < ids.len() {
                assert(out[i] == ids[i] && out[j] == ids[j]);
            } else if i < ids.len() {
                assert(out[i] == ids[i]);
                assert(ids.contains(ids[i]));
            } else if j < ids.len() {
                assert(out[j] == ids[j]);
                assert(ids.contains(ids[j]));
            }
        }
    }
}

/// The document shows every written entity of the mem and no other, each once,
/// in the order of ids. A stub never appears.
pub proof fn law_document_shows_written_entities_once(entities: Seq<Entity>, mem: Seq<char>)
    requires
        ids_unique(entities),
    ensures
        forall|id: Seq<char>|
            ordered_ids(entities, mem).contains(id) <==> holds_written(entities, mem, id),
        ordered_ids(entities, mem).no_duplicates(),
        forall|i: int, j: int|
            #![trigger ordered_ids(entities, mem)[i], ordered_ids(entities, mem)[j]]
            0 <= i < j < ordered_ids(entities, mem).len() ==> lex_less(
                ordered_ids(entities, mem)[i],
                ordered_ids(entities, mem)[j],
            ),
{
    let less = |a: Seq<char>, b: Seq<char>| lex_less(a, b);
    let all = mem_ids(entities, mem);
    let out = ordered_ids(entities, mem);
    assert forall|id: Seq<char>| out.contains(id) <==> holds_written(entities, mem, id) by {
        lemma_mem_ids(entities, mem, id);
        crate::sort::lemma_same_members(all, less, id);
    }
    lemma_mem_ids_apart(entities, mem);
    crate::sort::law_sorted_keeps(all, less);
    all.lemma_multiset_has_no_duplicates();
    out.lemma_multiset_has_no_duplicates_conv();
    assert(is_strict_order(less)) by {
        assert forall|a: Seq<char>| !#[trigger] less(a, a) by {
            crate::text::lemma_lex_irreflexive(a);
        }
        assert forall|a: Seq<char>, b: Seq<char>, c: Seq<char>| #[trigger]
            less(a, b) && #[trigger] less(b, c) implies less(a, c) by {
            crate::text::lemma_lex_transitive(a, b, c);
        }
        assert forall|a: Seq<char>, b: Seq<char>, c: Seq<char>| #[trigger]
            less(a, c) && !#[trigger] less(b, c) implies less(a, b) by {
            crate::text::lemma_lex_total(b, c);
            if lex_less(c, b) {
                crate::text::lemma_lex_transitive(a, c, b);
            }
        }
    }
    crate::sort::law_sorted_is_ordered(all, less);
    assert forall|i: int, j: int|
        #![trigger out[i], out[j]]
        0 <= i < j < out.len() implies lex_less(out[i], out[j]) by {
        assert(!less(out[j], out[i]));
        crate::text::lemma_lex_total(out[i], out[j]);
    }
}

/// The subject of a mem: its description, or its name.
pub open spec fn subject_of(mem: Seq<char>, config: Option<MemConfig>) -> Seq<char> {
    match config {
        Some(c) => match c.description {
            Some(d) => d@,
            None => mem,
        },
        None => mem,
    }
}

/// Who vouches for the content.
pub open spec fn provenance_line(capability: MountCapability, served: bool) -> Seq<char> {
    match (capability, served) {
        (
            MountCapability::Write,
            true,
        ) => "first-party (this deployment vouches for the content as its own)"@,
        (
            MountCapability::ReadOnly,
            true,
        ) => "third-party (this deployment does not vouch for the content)"@,
        (
            MountCapability::Write,
            false,
        ) => "first-party (authored in the workspace this export came from)"@,
        (
            MountCapability::ReadOnly,
            false,
        ) => "third-party (a read-only mount — someone else's published content)"@,
    }
}

/// The heading: under the authority that serves the document, or under the
/// mem's name.
pub open spec fn heading_text(
    authority: Option<Seq<char>>,
    mem: Seq<char>,
    subject: Seq<char>,
) -> Seq<char> {
    match authority {
        Some(a) => "# "@ + a + " — "@ + subject + "\n\nAuthority: "@ + a + "\n"@,
        None => if subject == mem {
            "# "@ + mem + "\n\nMem: "@ + mem + "\n"@
        } else {
            "# "@ + mem + " — "@ + subject + "\n\nMem: "@ + mem + "\n"@
        },
    }
}

/// The lines of the wider project.
pub open spec fn wider_lines(wider: Seq<(String, String)>) -> Seq<char>
    decreases wider.len(),
{
    if wider.len() == 0 {
        Seq::empty()
    } else {
        wider_lines(wider.drop_last()) + "- "@ + wider.last().0@ + " — "@ + wider.last().1@
            + ".\n"@
    }
}

/// The wider project, where there is one.
pub open spec fn wider_text(wider: Seq<(String, String)>) -> Seq<char> {
    if wider.len() == 0 {
        Seq::empty()
    } else {
        "The wider project:\n"@ + wider_lines(wider) + "\n"@
    }
}

/// What the document says of its links.
pub open spec fn links_sentence(prefix: Seq<char>) -> Seq<char> {
    if prefix.len() == 0 {
        "Entity references are relative links to that entity's own page."@
    } else {
        "Entity references are absolute links to that entity's own page."@
    }
}

/// The header of the document.
pub open spec fn header_text(
    ctx: LlmsTxtContext,
    mem: Seq<char>,
    pin: Seq<char>,
    capability: MountCapability,
    subject: Seq<char>,
    count: nat,
) -> Seq<char> {
    heading_text(opt_text(ctx.authority), mem, subject) + "Subject: "@ + subject + "\nSchema: "@
        + pin + "\nEntities: "@ + decimal(count) + "\nProvenance: "@ + provenance_line(
        capability,
        ctx.authority is Some,
    ) + "\n\n"@ + wider_text(ctx.wider_project@)
        + "Every non-stub entity of this Memstead graph follows, once, with its type and sections. "@
        + links_sentence(ctx.href_prefix@) + "\n\n---\n\n"@
}

/// An entity's markdown with its type on a line of its own behind the title.
pub open spec fn typed_text(md: Seq<char>, entity_type: Seq<char>) -> Seq<char> {
    let p = next_char(md, '\n', 0);
    if p < md.len() {
        md.take(p) + "\n\n_Type: "@ + entity_type + "_\n\n"@ + strip_all(md.skip(p + 1), "\n"@)
    } else {
        md + "\n\n_Type: "@ + entity_type + "_"@
    }
}

/// A text that ends with a line feed.
pub open spec fn ended(s: Seq<char>) -> Seq<char> {
    if s.len() > 0 && s.last() == '\n' {
        s
    } else {
        s.push('\n')
    }
}

/// The document down to the end of the entities `ids`.
pub open spec fn document_from(
    header: Seq<char>,
    ids: Seq<Seq<char>>,
    entities: Seq<Entity>,
    prefix: Seq<char>,
    mem: Seq<char>,
) -> Seq<char>
    decreases ids.len(),
{
    if ids.len() == 0 {
        header
    } else {
        let done = document_from(header, ids.drop_last(), entities, prefix, mem);
        match entity_of(entities, ids.last()) {
            Some(e) => ended(
                done + linkified(
                    typed_text(without_frontmatter(e.markdown@), e.entity_type@),
                    id_titles(entities),
                    prefix,
                    mem,
                ),
            ) + "\n---\n\n"@,
            None => done,
        }
    }
}

/// The pin of a mount as the document names it.
pub open spec fn mount_pin<B>(m: MountedBackend<B>) -> Seq<char> {
    match m.mount.schema {
        Some(s) => s.display(),
        None => Seq::empty(),
    }
}

/// The document of a mem.
pub open spec fn llms_document<B>(
    m: MountedBackend<B>,
    mem: Seq<char>,
    ctx: LlmsTxtContext,
    entities: Seq<Entity>,
) -> Seq<char> {
    let ids = ordered_ids(entities, mem);
    document_from(
        header_text(
            ctx,
            mem,
            mount_pin(m),
            m.mount.capability,
            subject_of(mem, m.mem_config),
            ids.len(),
        ),
        ids,
        entities,
        ctx.href_prefix@,
        mem,
    )
}

/// The header of the document.
fn header_text_of(
    ctx: &LlmsTxtContext,
    mem: &str,
    pin: &str,
    capability: MountCapability,
    subject: &str,
    count: usize,
) -> (r: String)
    ensures
        r@ == header_text(*ctx, mem@, pin@, capability, subject@, count as nat),
{
    let heading = match &ctx.authority {
        Some(a) => "# ".to_owned().concat(a).concat(" — ").concat(subject).concat(
            "\n\nAuthority: ",
        ).concat(a).concat("\n"),
        None => if same(subject, mem) {
            "# ".to_owned().concat(mem).concat("\n\nMem: ").concat(mem).concat("\n")
        } else {
            "# ".to_owned().concat(mem).concat(" — ").concat(subject).concat("\n\nMem: ").concat(
                mem,
            ).concat("\n")
        },
    };
    let provenance = match (capability, ctx.authority.is_some()) {
        (
            MountCapability::Write,
            true,
        ) => "first-party (this deployment vouches for the content as its own)",
        (
            MountCapability::ReadOnly,
            true,
        ) => "third-party (this deployment does not vouch for the content)",
        (
            MountCapability::Write,
            false,
        ) => "first-party (authored in the workspace this export came from)",
        (
            MountCapability::ReadOnly,
            false,
        ) => "third-party (a read-only mount — someone else's published content)",
    };
    let wider = if ctx.wider_project.len() == 0 {
        String::new()
    } else {
        let mut lines = String::new();
        let all = &ctx.wider_project;
        for i in 0..all.len()
            invariant
                lines@ == wider_lines(all@.take(i as int)),
        {
            assert(all@.take(i + 1).drop_last() =~= all@.take(i as int));
            lines = lines.concat("- ").concat(&all[i].0).concat(" — ").concat(&all[i].1).concat(
                ".\n",
            );
        }
        assert(all@.take(all@.len() as int) =~= all@);
        "The wider project:\n".to_owned().concat(&lines).concat("\n")
    };
    let sentence = if chars_of(&ctx.href_prefix).len() == 0 {
        "Entity references are relative links to that entity's own page."
    } else {
        "Entity references are absolute links to that entity's own page."
    };
    heading.concat("Subject: ").concat(subject).concat("\nSchema: ").concat(pin).concat(
        "\nEntities: ",
    ).concat(&decimal_of(count as u64)).concat("\nProvenance: ").concat(provenance).concat(
        "\n\n",
    ).concat(&wider).concat(
        "Every non-stub entity of this Memstead graph follows, once, with its type and sections. ",
    ).concat(sentence).concat("\n\n---\n\n")
}

/// An entity's markdown with its type on a line of its own behind the title.
fn typed_text_of(md: &str, entity_type: &str) -> (r: String)
    ensures
        r@ == typed_text(md@, entity_type@),
{
    let x = chars_of(md);
    let p = next_of(&x, '\n', 0);
    if p < x.len() {
        let title = slice_of(&x, 0, p);
        let rest = slice_of(&x, p + 1, x.len());
        assert(title@ =~= md@.take(p as int));
        assert(rest@ =~= md@.skip(p + 1));
        title.concat("\n\n_Type: ").concat(entity_type).concat("_\n\n").concat(
            &strip_repeated(&rest, "\n"),
        )
    } else {
        own(md).concat("\n\n_Type: ").concat(entity_type).concat("_")
    }
}

impl<B, H> Engine<B, H> {
    /// Ids and titles of the entities that are no stubs, in order, across
    /// every mounted mem: a link may reach into another one.
    pub fn entity_id_titles(&self) -> (r: Vec<(String, String)>)
        ensures
            views(r@) == id_titles(self.store.entities@),
    {
        let entities = &self.store.entities;
        let mut out: Vec<(String, String)> = Vec::new();
        assert(views(out@) =~= titled(entities@.take(0)));
        for i in 0..entities.len()
            invariant
                views(out@) == titled(entities@.take(i as int)),
        {
            let ghost done = views(out@);
            assert(entities@.take(i + 1).drop_last() =~= entities@.take(i as int));
            let e = &entities[i];
            if !e.stub {
                let pair = (e.id.0.clone(), e.title.clone());
                out.push(pair);
                assert(views(out@) =~= done.push(pair@));
            }
        }
        assert(entities@.take(entities@.len() as int) =~= entities@);
        let r = stable_sort(out);
        proof {
            assert((|a: (Seq<char>, Seq<char>), b: (Seq<char>, Seq<char>)|
                <(String, String) as Ranked>::ranks_before(a, b)) =~= (|
                a: (Seq<char>, Seq<char>),
                b: (Seq<char>, Seq<char>),
            | pair_less(a, b)));
        }
        r
    }

    /// Render `mem` as one Markdown document. A mem that nothing mounts is
    /// refused: a document about no entities would be a wrong answer.
    pub fn render_llms_txt(&self, mem: &str, ctx: &LlmsTxtContext) -> (r: Result<
        String,
        EngineError,
    >)
        ensures
            match r {
                Ok(out) => self.mount_of(mem@) matches Some(m) && out@ == llms_document(
                    m,
                    mem@,
                    *ctx,
                    self.store.entities@,
                ),
                Err(e) => self.mount_at(mem@) is None && says_unmounted(mem@, e),
            },
    {
        let at = match self.position(mem) {
            Some(i) => i,
            None => {
                return Err(EngineError::UnknownMem(own(mem)));
            },
        };
        let mounted = &self.mounts[at];
        let pin = match &mounted.mount.schema {
            Some(s) => s.as_display(),
            None => String::new(),
        };
        let subject = match &mounted.mem_config {
            Some(c) => match &c.description {
                Some(d) => d.clone(),
                None => own(mem),
            },
            None => own(mem),
        };
        let titles = self.entity_id_titles();
        let entities = &self.store.entities;
        let mut found: Vec<String> = Vec::new();
        assert(views(found@) =~= mem_ids(entities@.take(0), mem@));
        for i in 0..entities.len()
            invariant
                entities@ == self.store.entities@,
                views(found@) == mem_ids(entities@.take(i as int), mem@),
        {
            let ghost done = views(found@);
            assert(entities@.take(i + 1).drop_last() =~= entities@.take(i as int));
            let e = &entities[i];
            if same(&e.mem, mem) && !e.stub {
                found.push(e.id.0.clone());
                assert(views(found@) =~= done.push(e.id.0@));
            }
        }
        assert(entities@.take(entities@.len() as int) =~= entities@);
        let ids = stable_sort(found);
        let ghost iv = views(ids@);
        proof {
            assert((|a: Seq<char>, b: Seq<char>| <String as Ranked>::ranks_before(a, b)) =~= (|
                a: Seq<char>,
                b: Seq<char>,
            | lex_less(a, b)));
            assert(iv == ordered_ids(self.store.entities@, mem@));
        }
        let header = header_text_of(
            ctx,
            mem,
            &pin,
            mounted.mount.capability,
            &subject,
            ids.len(),
        );
        let ghost head = header@;
        let mut out = header;
        assert(iv.take(0) =~= Seq::empty());
        for i in 0..ids.len()
            invariant
                iv == views(ids@),
                views(titles@) == id_titles(self.store.entities@),
                out@ == document_from(
                    head,
                    iv.take(i as int),
                    self.store.entities@,
                    ctx.href_prefix@,
                    mem@,
                ),
        {
            assert(iv.take(i + 1).drop_last() =~= iv.take(i as int));
            assert(iv[i as int] == ids@[i as int]@);
            if let Some(e) = self.get_entity(&EntityId::canonical(&ids[i])) {
                let typed = typed_text_of(&strip_frontmatter(&e.markdown), &e.entity_type);
                let body = linkify_wikilinks(typed, &titles, &ctx.href_prefix, mem);
                out.append(&body);
                let x = chars_of(&out);
                if x.len() == 0 || x[x.len() - 1] != '\n' {
                    out.push('\n');
                }
                out.append("\n---\n\n");
            }
        }
        assert(iv.take(iv.len() as int) =~= iv);
        Ok(out)
    }
}

} // verus!
