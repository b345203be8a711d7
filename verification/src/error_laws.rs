//! What holds of errors: what their messages name, what their prose lists, and
//! what is told of a pin that leads nowhere.

use crate::error::{
    builtin_versions, held_version, inline_list, is_failed_pin, other_versions, pin_name,
    proposed_slug, section_line, section_lines, trail_clause, versions_named, BlockedReferrer,
    EngineError, MissingRequiredSection, ReferrerInfo, SchemaInstallHint, SchemaSourceDiagnostic,
};
use crate::json::JsonView;
use crate::ops::WarningHint;
use crate::schema::Schema;
use crate::text::{
    contains, decimal, join, lemma_find, lemma_first_shown, lemma_join_holds, lemma_next_char_skips,
    lemma_shown_behind, lemma_shown_further, lemma_shown_last, lemma_shown_through,
    lemma_shown_within, next_char, occurs_at, shows, texts,
};
use crate::version::law_ascending_keeps;
use std::sync::Arc;
use vstd::prelude::*;

verus! {

// ---------------------------------------------------------------------
// Messages
// ---------------------------------------------------------------------

/// What a message puts together it shows.
proof fn lemma_parts_are_shown()
    ensures
        forall|a: Seq<char>, p: Seq<char>| #[trigger] shows(a + p, p),
        forall|a: Seq<char>, p: Seq<char>, b: Seq<char>|
            shows(a, p) ==> #[trigger] shows(a + b, p),
{
    assert forall|a: Seq<char>, p: Seq<char>| #[trigger] shows(a + p, p) by {
        lemma_shown_last(a, p);
    }
    assert forall|a: Seq<char>, p: Seq<char>, b: Seq<char>| shows(a, p) implies #[trigger] shows(
        a + b,
        p,
    ) by {
        lemma_shown_further(a, p, b);
    }
}

/// The message of an error names what the error is about: the mems, entities,
/// refs and reasons that it holds.
#[verifier::rlimit(60)]
#[verifier::spinoff_prover]
pub proof fn law_message_names_its_subject(e: EngineError)
    ensures
        match e {
            EngineError::DuplicateMem(a) => shows(e.text(), a@),
            EngineError::UnknownMem(a) => shows(e.text(), a@),
            EngineError::UnknownVault(a) => shows(e.text(), a@),
            EngineError::MemQuarantined { mem, reason_code, reason_message, .. } =>
                shows(e.text(), mem@)
                && shows(e.text(), reason_code@) && shows(e.text(), reason_message@),
            EngineError::ReadOnlyMount(a) => shows(e.text(), a@),
            EngineError::UnknownType { name, schema_ref, .. } => shows(e.text(), name@)
                && shows(e.text(), schema_ref@),
            EngineError::InvalidTitle(a) => shows(e.text(), a.message@),
            EngineError::AlreadyExists { id, .. } => shows(e.text(), id@),
            EngineError::NotFound { id, .. } => shows(e.text(), id@),
            EngineError::HashMismatch { id, current, is_stub } => shows(e.text(), id@) && (is_stub
                || shows(e.text(), current@)),
            EngineError::HasIncomingRefs { id, .. } => shows(e.text(), id@),
            EngineError::MemHasIncomingRefs { mem, .. } => shows(e.text(), mem@),
            EngineError::CrossMemLinkNotAllowed { from_mem, to_mem, .. } =>
                shows(e.text(), from_mem@)
                && shows(e.text(), to_mem@),
            EngineError::CrossMemTargetNotFound { target_id, target_mem, .. } =>
                shows(e.text(), target_id@)
                && shows(e.text(), target_mem@),
            EngineError::CrossMemEdgeNotDeclared {
                source_schema,
                target_schema,
                rel_type,
                from_id,
                to_id,
                ..
            } => shows(e.text(), rel_type@) && shows(e.text(), from_id@)
                && shows(e.text(), source_schema@) && shows(e.text(), to_id@)
                && shows(e.text(), target_schema@),
            EngineError::RepairNotNeeded { id, recovery, .. } => shows(e.text(), id@)
                && shows(e.text(), recovery@),
            EngineError::RenameNoOp { id, .. } => shows(e.text(), id@),
            EngineError::EmptyUpdate { id, .. } => shows(e.text(), id@),
            EngineError::RenameBlockedByCrossMemPolicy { from_mem, .. } =>
                shows(e.text(), from_mem@),
            EngineError::WikiLinkWithoutRelation { from_id, .. } => shows(e.text(), from_id@),
            EngineError::RelationHasBodyLinks { from_id, to_id, rel_type, .. } =>
                shows(e.text(), rel_type@)
                && shows(e.text(), from_id@) && shows(e.text(), to_id@),
            EngineError::RenamePartialFailure { failed_mem, .. } => shows(e.text(), failed_mem@),
            EngineError::StubCannotRelate { id, .. } => shows(e.text(), id@),
            EngineError::StubNotUpdatable { id, .. } => shows(e.text(), id@),
            EngineError::StubNotRenamable { id, .. } => shows(e.text(), id@),
            EngineError::InvalidEntityId { id, reason, .. } => shows(e.text(), id@)
                && shows(e.text(), reason@),
            EngineError::InvalidWikiLinkTarget { raw, section, reason, .. } => shows(e.text(), raw@)
                && shows(e.text(), section@) && shows(e.text(), reason@),
            EngineError::InvalidWikiLinkMem { raw, section, reason, .. } => shows(e.text(), raw@)
                && shows(e.text(), section@) && shows(e.text(), reason@),
            EngineError::ConflictingSectionModes { section, .. } => shows(e.text(), section@),
            EngineError::RelationshipCycle { rel_type, from, to, .. } => shows(e.text(), rel_type@)
                && shows(e.text(), from.0@) && shows(e.text(), to.0@),
            EngineError::RequiredFieldUnset { field, entity_type, .. } => shows(e.text(), field@)
                && shows(e.text(), entity_type@),
            EngineError::MissingRequiredSection { entity_type, .. } =>
                shows(e.text(), entity_type@),
            EngineError::PatchSectionEmpty { section, .. } => shows(e.text(), section@),
            EngineError::PatchOldNotFound { section, .. } => shows(e.text(), section@),
            EngineError::Validation(a) => shows(e.text(), a.message@),
            EngineError::ParseAfterWrite(a) => shows(e.text(), a@),
            EngineError::Parse(a) => shows(e.text(), a.message@),
            EngineError::SchemaNotFound { mem, .. } => shows(e.text(), mem@),
            EngineError::SchemaResolverInit(a) => shows(e.text(), a@),
            EngineError::Mem(a) => shows(e.text(), a@),
            EngineError::MemNameCollision { name, source_origin, .. } => shows(e.text(), name@)
                && shows(e.text(), source_origin@),
            EngineError::InvalidInput(a) => shows(e.text(), a@),
            EngineError::UnknownRemote(a) => shows(e.text(), a@),
            EngineError::LocalDivergence { mem, remote_ref, .. } => shows(e.text(), mem@)
                && shows(e.text(), remote_ref@),
            EngineError::NonFastForward { mem, remote, .. } => shows(e.text(), remote@)
                && shows(e.text(), mem@),
            EngineError::LocalInvalidState { mem, remote, detail, .. } => shows(e.text(), mem@)
                && shows(e.text(), remote@) && shows(e.text(), detail@),
            EngineError::SchemaViolationInFetch { mem, ref_name, .. } => shows(e.text(), mem@)
                && shows(e.text(), ref_name@),
            EngineError::UnknownRef(a) => shows(e.text(), a@),
            EngineError::RenameSimilarityOutOfRange {
                requested,
                allowed_min,
                allowed_max,
                ..
            } => shows(e.text(), requested@) && shows(e.text(), allowed_min@)
                && shows(e.text(), allowed_max@),
            EngineError::InvalidChangesCursor { mem, since, .. } => shows(e.text(), since@)
                && shows(e.text(), mem@),
            EngineError::InvalidTimestampCursor { mem, since, .. } => shows(e.text(), since@)
                && shows(e.text(), mem@),
            EngineError::MemConfigIncomplete { mem, .. } => shows(e.text(), mem@),
            EngineError::MissingRequiredDescription { rel_type, from_id, to_id, .. } =>
                shows(e.text(), rel_type@)
                && shows(e.text(), from_id@) && shows(e.text(), to_id@),
            EngineError::DescriptionNotPermitted { rel_type, from_id, to_id, .. } =>
                shows(e.text(), rel_type@)
                && shows(e.text(), from_id@) && shows(e.text(), to_id@),
            EngineError::RelationManualAuthoringForbidden {
                rel_type,
                from_id,
                to_id,
                guidance,
                ..
            } => shows(e.text(), rel_type@) && shows(e.text(), from_id@)
                && shows(e.text(), to_id@) && shows(e.text(), guidance@),
            EngineError::MarkdownExportUnsupportedBackend { mem, active_backend, .. } =>
                shows(e.text(), mem@)
                && shows(e.text(), active_backend@),
            EngineError::InvalidCheckFinding { reason, .. } => shows(e.text(), reason@),
            EngineError::CheckNotRecorded { reason, .. } => shows(e.text(), reason@),
            EngineError::NotConflicted { id, .. } => shows(e.text(), id@),
            EngineError::MergeConflictUnsupportedBackend { mem, .. } => shows(e.text(), mem@),
            _ => true,
        },
{
    lemma_parts_are_shown();
}

/// A list in a message shows its first three items; where there are more, it
/// says how many and where to find them, and nothing is left out unsaid.
pub proof fn law_list_shows_its_items(items: Seq<Seq<char>>, field: Seq<char>, i: int)
    requires
        0 <= i < items.len(),
    ensures
        i < 3 ==> shows(inline_list(items, field), items[i]),
        items.len() <= 3 ==> shows(inline_list(items, field), items[i]),
        items.len() > 3 ==> shows(
            inline_list(items, field),
            " +"@ + decimal((items.len() - 3) as nat) + " more — see details."@ + field,
        ),
{
    let all = inline_list(items, field);
    if items.len() > 3 {
        let firsts = items.take(3);
        let tail = " +"@ + decimal((items.len() - 3) as nat) + " more — see details."@ + field;
        let head = join(firsts, ", "@);
        assert(all =~= head + tail);
        lemma_shown_last(head, tail);
        if i < 3 {
            assert(firsts[i] == items[i]);
            let at = lemma_join_holds(firsts, ", "@, i);
            assert(occurs_at(head, items[i], at));
            lemma_shown_further(head, items[i], tail);
        }
    } else {
        let at = lemma_join_holds(items, ", "@, i);
        assert(occurs_at(all, items[i], at));
    }
}

// ---------------------------------------------------------------------
// Prose
// ---------------------------------------------------------------------

/// A part of a joined list is shown.
proof fn lemma_join_shows(parts: Seq<Seq<char>>, sep: Seq<char>, k: int)
    requires
        0 <= k < parts.len(),
    ensures
        shows(join(parts, sep), parts[k]),
{
    let at = lemma_join_holds(parts, sep, k);
    assert(occurs_at(join(parts, sep), parts[k], at));
}

/// The prose of an error lists every item, however many there are: every
/// referrer, every link without a relation, every section that still links,
/// every referrer that a policy blocks, every violation of a fetched tree, and
/// the whole path of a cycle.
#[verifier::rlimit(40)]
pub proof fn law_prose_lists_everything(e: EngineError, k: int)
    ensures
        match e {
            EngineError::HasIncomingRefs { referrers, .. } => 0 <= k < referrers@.len() ==> shows(
                e.prose(),
                referrers@[k].from_id@,
            ),
            EngineError::MemHasIncomingRefs { referrers, .. } => 0 <= k < referrers@.len()
                ==> shows(e.prose(), referrers@[k].from_id@),
            EngineError::WikiLinkWithoutRelation { missing, .. } => 0 <= k < missing@.len()
                ==> shows(e.prose(), missing@[k].section_key@) && shows(
                e.prose(),
                missing@[k].target_id@,
            ),
            EngineError::RelationHasBodyLinks { body_links, .. } => 0 <= k < body_links@.len()
                ==> shows(e.prose(), body_links@[k]@),
            EngineError::RenameBlockedByCrossMemPolicy { blocked_referrers, .. } => 0 <= k
                < blocked_referrers@.len() ==> shows(e.prose(), blocked_referrers@[k].from_mem@)
                && shows(e.prose(), blocked_referrers@[k].to_mem@),
            EngineError::SchemaViolationInFetch { violations, .. } => 0 <= k < violations@.len()
                ==> shows(e.prose(), violations@[k]@),
            EngineError::RelationshipCycle { existing_path, from, to, .. } => shows(
                e.prose(),
                from.0@,
            ) && shows(e.prose(), to.0@) && (0 <= k < existing_path@.len() ==> shows(
                e.prose(),
                existing_path@[k].0@,
            )),
            _ => true,
        },
{
    lemma_parts_are_shown();
    match e {
        EngineError::HasIncomingRefs { id, referrers } => {
            if 0 <= k < referrers@.len() {
                lemma_referrer(referrers@, k);
                let list = join(crate::error::referrer_texts(referrers@), ", "@);
                let front = "entity "@ + id@ + " has "@ + decimal(referrers@.len())
                    + " incoming reference(s) in write mems ("@;
                let end = "); remove them first via memstead_relate --remove or memstead_update"@;
                lemma_shown_within(e.prose(), front, list, end, referrers@[k].from_id@);
            }
        },
        EngineError::MemHasIncomingRefs { mem, referrers } => {
            if 0 <= k < referrers@.len() {
                lemma_referrer(referrers@, k);
                let list = join(crate::error::referrer_texts(referrers@), ", "@);
                let front = "mem `"@ + mem@ + "` has "@ + decimal(referrers@.len())
                    + " incoming reference(s) in write mems ("@;
                let end = "); remove them first via memstead_relate --remove or memstead_update"@;
                lemma_shown_within(e.prose(), front, list, end, referrers@[k].from_id@);
            }
        },
        EngineError::WikiLinkWithoutRelation { from_id, missing } => {
            if 0 <= k < missing@.len() {
                let ts = crate::error::link_texts(missing@);
                lemma_join_shows(ts, ", "@, k);
                let list = join(ts, ", "@);
                let m = missing@[k];
                assert(ts[k] == m.section_key@ + "→"@ + m.target_id@);
                lemma_first_shown(m.section_key@, "→"@);
                assert(shows(ts[k], m.section_key@));
                assert(shows(ts[k], m.target_id@));
                lemma_shown_through(list, ts[k], m.section_key@);
                lemma_shown_through(list, ts[k], m.target_id@);
                let front = "post-mutation body of "@ + from_id@ + " has "@ + decimal(
                    missing@.len(),
                ) + " wiki-link(s) without a backing relation ("@;
                let end = e.prose().skip((front.len() + list.len()) as int);
                assert(e.prose() =~= front + list + end);
                lemma_shown_within(e.prose(), front, list, end, m.section_key@);
                lemma_shown_within(e.prose(), front, list, end, m.target_id@);
            }
        },
        EngineError::RelationHasBodyLinks { from_id, to_id, rel_type, body_links } => {
            if 0 <= k < body_links@.len() {
                let ts = texts(body_links@);
                lemma_join_shows(ts, ", "@, k);
                let list = join(ts, ", "@);
                let front = "cannot remove "@ + rel_type@ + " "@ + from_id@ + " → "@ + to_id@
                    + ": source body still contains wiki-link(s) to the target in section(s) "@;
                let end = " — drop them via memstead_update before removing the relation"@;
                lemma_shown_within(e.prose(), front, list, end, body_links@[k]@);
            }
        },
        EngineError::RenameBlockedByCrossMemPolicy { from_mem, blocked_referrers } => {
            if 0 <= k < blocked_referrers@.len() {
                let ts = crate::error::blocked_texts(blocked_referrers@);
                lemma_join_shows(ts, ", "@, k);
                let list = join(ts, ", "@);
                let b = blocked_referrers@[k];
                assert(ts[k] == b.text());
                lemma_blocked(b);
                lemma_shown_through(list, ts[k], b.from_mem@);
                lemma_shown_through(list, ts[k], b.to_mem@);
                let front =
                    "rename blocked: cross-mem rewrite from referrer mem(s) into `"@ + from_mem@
                    + "` is not permitted by `[cross_mem_links]` — blocked: "@;
                let end =
                    " — grant the missing direction or rewrite the blocked referrers manually"@;
                lemma_shown_within(e.prose(), front, list, end, b.from_mem@);
                lemma_shown_within(e.prose(), front, list, end, b.to_mem@);
            }
        },
        EngineError::SchemaViolationInFetch { mem, ref_name, violations } => {
            if 0 <= k < violations@.len() {
                let ts = texts(violations@);
                lemma_join_shows(ts, "; "@, k);
                let list = join(ts, "; "@);
                lemma_shown_behind(": "@, list, violations@[k]@);
                lemma_shown_behind(e.text(), ": "@ + list, violations@[k]@);
            }
        },
        EngineError::RelationshipCycle { rel_type, from, to, existing_path, path_truncated, .. } => {
            if 0 <= k < existing_path@.len() {
                let ids = crate::error::id_texts(existing_path@);
                lemma_join_shows(ids, " → "@, k);
                let path = crate::error::path_clause(ids);
                assert(ids[k] == existing_path@[k].0@);
                assert(shows(path, existing_path@[k].0@));
                let front = "creating edge "@ + rel_type@ + " from '"@ + from.0@ + "' to '"@
                    + to.0@ + "' would close a cycle in the "@ + rel_type@
                    + " subgraph — existing path: "@;
                let mark = if path_truncated {
                    " (path truncated)"@
                } else {
                    ""@
                };
                let end =
                    "; remove an edge along this path to break the cycle, then retry"@;
                assert(e.prose() == front + path + mark + end);
                lemma_shown_behind(front, path, existing_path@[k].0@);
            }
        },
        _ => {},
    }
}

/// A referrer is listed by its id.
proof fn lemma_referrer(referrers: Seq<ReferrerInfo>, k: int)
    requires
        0 <= k < referrers.len(),
    ensures
        shows(
            join(crate::error::referrer_texts(referrers), ", "@),
            referrers[k].from_id@,
        ),
{
    let ts = crate::error::referrer_texts(referrers);
    lemma_join_shows(ts, ", "@, k);
    let r = referrers[k];
    assert(ts[k] == r.text());
    if r.rel_types@.len() <= 1 {
        assert(ts[k] == r.from_id@);
    } else {
        let rest = ts[k].skip(r.from_id@.len() as int);
        assert(ts[k] =~= r.from_id@ + rest);
        lemma_first_shown(r.from_id@, rest);
        lemma_shown_through(join(ts, ", "@), ts[k], r.from_id@);
    }
}

/// A blocked referrer is listed by its mems.
proof fn lemma_blocked(b: BlockedReferrer)
    ensures
        shows(b.text(), b.from_mem@),
        shows(b.text(), b.to_mem@),
{
    lemma_parts_are_shown();
    lemma_first_shown(b.from_mem@, " → "@);
    let head = b.from_mem@ + " → "@ + b.to_mem@;
    let rest = b.text().skip(head.len() as int);
    assert(b.text() =~= head + rest);
    assert(shows(head, b.from_mem@));
    assert(shows(head, b.to_mem@));
}

/// The prose on missing sections has a line for every section, with its key and
/// heading.
pub proof fn law_prose_lists_every_section(sections: Seq<MissingRequiredSection>, k: int)
    requires
        0 <= k < sections.len(),
    ensures
        shows(
            section_lines(sections),
            "\n  - '"@ + sections[k].key@ + "' ("@ + sections[k].heading@ + ")"@,
        ),
    decreases sections.len(),
{
    let head = sections.drop_last();
    let before = section_lines(head);
    let last = section_line(sections.last());
    let p = "\n  - '"@ + sections[k].key@ + "' ("@ + sections[k].heading@ + ")"@;
    if k < sections.len() - 1 {
        law_prose_lists_every_section(head, k);
        assert(head[k] == sections[k]);
        lemma_shown_further(before, p, last);
    } else {
        let rest = last.skip(p.len() as int);
        assert(last =~= p + rest);
        lemma_first_shown(p, rest);
        lemma_shown_behind(before, last, p);
    }
}

// ---------------------------------------------------------------------
// Payloads
// ---------------------------------------------------------------------

/// Whether a payload holds a value under a key.
pub open spec fn holds_value(v: JsonView, key: Seq<char>, value: JsonView) -> bool {
    v matches JsonView::Object(fields) && exists|i: int|
        0 <= i < fields.len() && #[trigger] fields[i] == (key, value)
}

/// Whether a payload holds a list under a key, of so many items.
pub open spec fn holds_list(v: JsonView, key: Seq<char>, n: nat) -> bool {
    v matches JsonView::Object(fields) && exists|i: int|
        0 <= i < fields.len() && (#[trigger] fields[i]).0 == key && (fields[i].1
            matches JsonView::List(items) && items.len() == n)
}

/// Where a message cuts a list and points to the payload, the payload holds the
/// list whole, under the name that the message gives.
pub proof fn law_payload_holds_what_the_message_cuts(e: EngineError)
    ensures
        match e {
            EngineError::HasIncomingRefs { id, referrers } => holds_list(
                e.details_value(),
                "referrers"@,
                referrers@.len(),
            ) && holds_value(e.details_value(), "id"@, JsonView::Text(id@)),
            EngineError::MemHasIncomingRefs { mem, referrers } => holds_list(
                e.details_value(),
                "referrers"@,
                referrers@.len(),
            ) && holds_value(e.details_value(), "mem"@, JsonView::Text(mem@)),
            EngineError::WikiLinkWithoutRelation { from_id, missing } => holds_list(
                e.details_value(),
                "missing"@,
                missing@.len(),
            ) && holds_value(e.details_value(), "from_id"@, JsonView::Text(from_id@)),
            EngineError::RelationHasBodyLinks { body_links, .. } => holds_list(
                e.details_value(),
                "body_links"@,
                body_links@.len(),
            ),
            EngineError::RenameBlockedByCrossMemPolicy { blocked_referrers, .. } => holds_list(
                e.details_value(),
                "blocked_referrers"@,
                blocked_referrers@.len(),
            ),
            EngineError::NotFound { id } => holds_value(
                e.details_value(),
                "id"@,
                JsonView::Text(id@),
            ),
            EngineError::NotConflicted { id } => holds_value(
                e.details_value(),
                "id"@,
                JsonView::Text(id@),
            ),
            _ => true,
        },
{
    let v = e.details_value();
    if let JsonView::Object(fields) = v {
        match e {
            EngineError::HasIncomingRefs { .. } => {
                assert(fields[0].0 == "id"@ && fields[1].0 == "referrers"@);
            },
            EngineError::MemHasIncomingRefs { .. } => {
                assert(fields[0].0 == "mem"@ && fields[1].0 == "referrers"@);
            },
            EngineError::WikiLinkWithoutRelation { .. } => {
                assert(fields[0].0 == "from_id"@ && fields[1].0 == "missing"@);
            },
            EngineError::RelationHasBodyLinks { .. } => {
                assert(fields[3].0 == "body_links"@);
            },
            EngineError::RenameBlockedByCrossMemPolicy { .. } => {
                assert(fields[1].0 == "blocked_referrers"@);
            },
            EngineError::NotFound { .. } => {
                assert(fields[0].0 == "id"@);
            },
            EngineError::NotConflicted { .. } => {
                assert(fields[0].0 == "id"@);
            },
            _ => {},
        }
    }
}

// ---------------------------------------------------------------------
// Pins that lead nowhere
// ---------------------------------------------------------------------

/// Which versions of a name there are, and which that are not known.
#[verifier::rlimit(40)]
proof fn lemma_versions(
    schemas: Seq<Arc<Schema>>,
    name: Seq<char>,
    known: Seq<Seq<char>>,
    v: Seq<char>,
)
    ensures
        versions_named(schemas, name).contains(v) <==> holds_version(schemas, name, v),
        other_versions(schemas, name, known).contains(v) <==> holds_version(schemas, name, v)
            && !known.contains(v),
    decreases schemas.len(),
{
    let all = versions_named(schemas, name);
    let others = other_versions(schemas, name, known);
    if schemas.len() > 0 {
        let head = schemas.drop_last();
        let ha = versions_named(head, name);
        let ho = other_versions(head, name, known);
        let n = schemas.len() - 1;
        lemma_versions(head, name, known, v);
        if holds_version(head, name, v) {
            let i = choose|i: int|
                0 <= i < head.len() && (#[trigger] head[i]).name@ == name && head[i].version@ == v;
            assert(schemas[i] == head[i]);
        }
        if holds_version(schemas, name, v) {
            let i = choose|i: int|
                0 <= i < schemas.len() && (#[trigger] schemas[i]).name@ == name
                    && schemas[i].version@ == v;
            if i < n {
                assert(head[i] == schemas[i]);
            }
        }
        if ha.contains(v) {
            let k = choose|k: int| 0 <= k < ha.len() && ha[k] == v;
            assert(all[k] == v);
        }
        if ho.contains(v) {
            let k = choose|k: int| 0 <= k < ho.len() && ho[k] == v;
            assert(others[k] == v);
        }
        if all.contains(v) {
            let k = choose|k: int| 0 <= k < all.len() && all[k] == v;
            if k < ha.len() {
                assert(ha[k] == v);
            } else {
                assert(schemas[n].name@ == name);
            }
        }
        if others.contains(v) {
            let k = choose|k: int| 0 <= k < others.len() && others[k] == v;
            if k < ho.len() {
                assert(ho[k] == v);
            } else {
                assert(schemas[n].name@ == name);
            }
        }
        if schemas[n].name@ == name && schemas[n].version@ == v {
            assert(all[ha.len() as int] == v);
            if !known.contains(v) {
                assert(others[ho.len() as int] == v);
            }
        }
    }
}

/// Whether schemas hold a version of a name.
pub open spec fn holds_version(
    schemas: Seq<Arc<Schema>>,
    name: Seq<char>,
    v: Seq<char>,
) -> bool {
    exists|i: int|
        0 <= i < schemas.len() && (#[trigger] schemas[i]).name@ == name && schemas[i].version@ == v
}

/// What is told of a pin that leads nowhere is what was searched: in the local
/// storage the versions of the name that only it holds, in the built-in
/// catalogue those that it holds, each with whether the pinned one is among
/// them.
pub proof fn law_failed_pin_tells_what_was_searched(
    ds: Seq<SchemaSourceDiagnostic>,
    name: Seq<char>,
    requested: Seq<char>,
    consulted: Seq<Arc<Schema>>,
    builtins: Seq<Arc<Schema>>,
    v: Seq<char>,
)
    requires
        is_failed_pin(ds, name, requested, consulted, builtins),
    ensures
        ds.len() == 3,
        ds[0].source@ == "local_storage"@ && ds[1].source@ == "builtin"@ && ds[2].source@
            == "remote"@,
        texts(ds[0].versions_found@).contains(v) <==> holds_version(consulted, name, v)
            && !holds_version(builtins, name, v),
        texts(ds[1].versions_found@).contains(v) <==> holds_version(builtins, name, v),
        ds[2].versions_found@.len() == 0,
        ds[1].pinned_version_match <==> holds_version(builtins, name, requested),
        ds[0].pinned_version_match <==> holds_version(consulted, name, requested)
            && !holds_version(builtins, name, requested),
{
    let known = builtin_versions(builtins, name);
    lemma_versions(builtins, name, Seq::empty(), v);
    lemma_versions(builtins, name, Seq::empty(), requested);
    law_ascending_keeps(versions_named(builtins, name), v);
    law_ascending_keeps(versions_named(builtins, name), requested);
    lemma_versions(consulted, name, known, v);
    lemma_versions(consulted, name, known, requested);
    law_ascending_keeps(other_versions(consulted, name, known), v);
    law_ascending_keeps(other_versions(consulted, name, known), requested);
}

/// The name of a pin is what stands before its version.
pub proof fn law_pin_name_reads_back(name: Seq<char>, version: Seq<char>)
    requires
        !name.contains('@'),
    ensures
        pin_name(name + seq!['@'] + version) == name,
{
    let pin = name + seq!['@'] + version;
    assert forall|j: int| 0 <= j < name.len() implies pin[j] != '@' by {
        assert(pin[j] == name[j]);
        assert(name.contains(name[j]));
    }
    lemma_next_char_skips(pin, '@', 0, name.len() as int);
    assert(pin[name.len() as int] == '@');
    assert(next_char(pin, '@', 0) == name.len());
    assert(pin.take(name.len() as int) =~= name);
}

/// Where a source holds another version of the schema, the message says how to
/// pin that one; where none does, how to install the package.
#[verifier::rlimit(40)]
pub proof fn law_failed_pin_says_the_way_out(
    mem: Seq<char>,
    pin: Seq<char>,
    sources: Seq<SchemaSourceDiagnostic>,
    hint: Option<SchemaInstallHint>,
)
    requires
        sources.len() > 0,
    ensures
        held_version(sources) matches Some(v) ==> shows(
            trail_clause(mem, pin, sources, hint),
            "memstead mem set-schema "@ + mem + " "@ + pin_name(pin) + "@"@ + v + "`"@,
        ),
        held_version(sources) is None ==> (match hint {
            Some(h) => shows(trail_clause(mem, pin, sources, hint), h.command@),
            None => shows(
                trail_clause(mem, pin, sources, hint),
                "memstead schema install <package-dir>"@,
            ),
        }),
{
    lemma_parts_are_shown();
    let front = " — searched "@ + join(
        crate::error::source_texts(sources, pin_name(pin)),
        ", "@,
    );
    let t = trail_clause(mem, pin, sources, hint);
    match held_version(sources) {
        Some(v) => {
            let p = "memstead mem set-schema "@ + mem + " "@ + pin_name(pin) + "@"@ + v + "`"@;
            let lead = "; the pinned version is wrong — run `"@;
            assert("; the pinned version is wrong — run `memstead mem set-schema "@ =~= lead
                + "memstead mem set-schema "@) by {
                reveal_strlit("; the pinned version is wrong — run `memstead mem set-schema ");
                reveal_strlit("; the pinned version is wrong — run `");
                reveal_strlit("memstead mem set-schema ");
            }
            assert(t =~= front + (lead + p));
            lemma_shown_last(lead, p);
            lemma_shown_behind(front, lead + p, p);
        },
        None => match hint {
            Some(h) => {
                let way = "; run `"@ + h.command@ + "`"@;
                assert(shows(way, h.command@));
                lemma_shown_behind(front, way, h.command@);
            },
            None => {
                let p = "memstead schema install <package-dir>"@;
                let way = "; run `memstead schema install <package-dir>`"@;
                assert(way =~= "; run `"@ + p + "`"@) by {
                    reveal_strlit("; run `memstead schema install <package-dir>`");
                    reveal_strlit("; run `");
                    reveal_strlit("memstead schema install <package-dir>");
                    reveal_strlit("`");
                }
                assert(shows(way, p));
                lemma_shown_behind(front, way, p);
            },
        },
    }
}

/// The version that a source holds is the last that it lists, of the first
/// source that lists any.
pub proof fn law_held_version_is_listed(sources: Seq<SchemaSourceDiagnostic>)
    ensures
        match held_version(sources) {
            Some(v) => exists|i: int|
                0 <= i < sources.len() && (#[trigger] sources[i]).versions_found@.len() > 0
                    && sources[i].versions_found@.last()@ == v && forall|j: int|
                    0 <= j < i ==> (#[trigger] sources[j]).versions_found@.len() == 0,
            None => forall|i: int|
                0 <= i < sources.len() ==> (#[trigger] sources[i]).versions_found@.len() == 0,
        },
    decreases sources.len(),
{
    if sources.len() > 0 {
        let rest = sources.drop_first();
        law_held_version_is_listed(rest);
        if sources[0].versions_found@.len() == 0 {
            match held_version(rest) {
                Some(v) => {
                    let i = choose|i: int|
                        0 <= i < rest.len() && (#[trigger] rest[i]).versions_found@.len() > 0
                            && rest[i].versions_found@.last()@ == v && forall|j: int|
                            0 <= j < i ==> (#[trigger] rest[j]).versions_found@.len() == 0;
                    assert(sources[i + 1] == rest[i]);
                    assert forall|j: int| 0 <= j < i + 1 implies (
                    #[trigger] sources[j]).versions_found@.len() == 0 by {
                        if j > 0 {
                            assert(sources[j] == rest[j - 1]);
                        }
                    }
                },
                None => {
                    assert forall|i: int| 0 <= i < sources.len() implies (
                    #[trigger] sources[i]).versions_found@.len() == 0 by {
                        if i > 0 {
                            assert(sources[i] == rest[i - 1]);
                        }
                    }
                },
            }
        }
    }
}

/// A slug is proposed just where a suggestion names no mem.
pub proof fn law_proposed_slug_names_no_mem(s: Seq<char>)
    ensures
        (exists|i: int| 0 <= i < s.len() && #[trigger] s[i] == ':') ==> proposed_slug(Some(s))
            is None,
        (exists|i: int| 0 <= i < s.len() - 1 && #[trigger] s[i] == '-' && s[i + 1] == '-')
            ==> proposed_slug(Some(s)) is None,
        (forall|i: int| 0 <= i < s.len() ==> #[trigger] s[i] != ':' && s[i] != '-')
            ==> proposed_slug(Some(s)) == Some(s),
        proposed_slug(None) is None,
{
    reveal_strlit(":");
    reveal_strlit("--");
    lemma_find(s, ":"@, 0);
    lemma_find(s, "--"@, 0);
    if exists|i: int| 0 <= i < s.len() && #[trigger] s[i] == ':' {
        let i = choose|i: int| 0 <= i < s.len() && #[trigger] s[i] == ':';
        assert(s.subrange(i, i + 1) =~= ":"@);
        assert(occurs_at(s, ":"@, i));
    }
    if exists|i: int| 0 <= i < s.len() - 1 && #[trigger] s[i] == '-' && s[i + 1] == '-' {
        let i = choose|i: int| 0 <= i < s.len() - 1 && #[trigger] s[i] == '-' && s[i + 1] == '-';
        assert(s.subrange(i, i + 2) =~= "--"@);
        assert(occurs_at(s, "--"@, i));
    }
    if forall|i: int| 0 <= i < s.len() ==> #[trigger] s[i] != ':' && s[i] != '-' {
        if let Some(i) = crate::text::find(s, ":"@, 0) {
            assert(s.subrange(i, i + 1)[0] == ':');
            assert(s[i] == ':');
        }
        if let Some(i) = crate::text::find(s, "--"@, 0) {
            assert(s.subrange(i, i + 2)[0] == '-');
            assert(s[i] == '-');
        }
    }
}

// ---------------------------------------------------------------------
// Warnings
// ---------------------------------------------------------------------

/// The code of a warning tells its kind: two of the engine's own warnings with
/// one code are of one kind, and the loader's keep the code that they came with.
pub proof fn law_warning_code_tells_the_kind(a: WarningHint, b: WarningHint)
    ensures
        a matches WarningHint::Loader { code, .. } ==> a.code_text() == code@,
        !(a is Loader) && !(b is Loader) && a.code_text() == b.code_text() ==> {
            &&& a is MemReloaded <==> b is MemReloaded
            &&& a is SchemaPinMismatch <==> b is SchemaPinMismatch
            &&& a is EngineVersionSkew <==> b is EngineVersionSkew
            &&& a is SchemaGenerationsBehind <==> b is SchemaGenerationsBehind
            &&& a is SchemaHeadingRoundtripViolation <==> b is SchemaHeadingRoundtripViolation
            &&& a is MountUnbacked <==> b is MountUnbacked
            &&& a is SuspiciousNestedPrefix <==> b is SuspiciousNestedPrefix
            &&& a is ConfigWriteIntervened <==> b is ConfigWriteIntervened
        },
{
    reveal_strlit("MEM_RELOADED");
    reveal_strlit("SCHEMA_PIN_MISMATCH");
    reveal_strlit("ENGINE_VERSION_SKEW");
    reveal_strlit("SCHEMA_GENERATIONS_BEHIND");
    reveal_strlit("SCHEMA_HEADING_ROUNDTRIP_VIOLATION");
    reveal_strlit("MOUNT_UNBACKED");
    reveal_strlit("SUSPICIOUS_NESTED_PREFIX");
    reveal_strlit("CONFIG_WRITE_INTERVENED");
    assert("SCHEMA_PIN_MISMATCH"@[0] == 'S' && "ENGINE_VERSION_SKEW"@[0] == 'E');
    assert("MEM_RELOADED"@.len() == 12);
    assert("SCHEMA_PIN_MISMATCH"@.len() == 19);
    assert("ENGINE_VERSION_SKEW"@.len() == 19);
    assert("SCHEMA_GENERATIONS_BEHIND"@.len() == 25);
    assert("SCHEMA_HEADING_ROUNDTRIP_VIOLATION"@.len() == 34);
    assert("MOUNT_UNBACKED"@.len() == 14);
    assert("SUSPICIOUS_NESTED_PREFIX"@.len() == 24);
    assert("CONFIG_WRITE_INTERVENED"@.len() == 23);
}

} // verus!
