//! What holds of change reports, of pulls and pushes, and of reloads, over
//! what was told and what comes out.

use crate::backend::BackendError;
use crate::boot::with_entities;
use crate::drift::{
    added_ids, all_enriched, changed_ids, checks_ref, checks_tree, discarded, fetch_all,
    file_violation, is_error_of, is_write_id, known_as, notices, parse_violations, parsed_at, pulls,
    pulls_fetched, pushes, refuses_violations, repo_of, reported, reports, stranded, stranded_among,
    stranded_edges, tells_changes, tree_violations, verdict_was_told, without_errors, without_mem,
    without_unbacked, MemReload, ReloadReport, StrandedView,
};
use crate::engine::{schema_of, Engine, MountedBackend};
use crate::entity::{
    entity_index, entity_of, ids_unique, lemma_entity_index, lemma_put_entity, Entity, EntityId,
    Relationship,
};
use crate::error::EngineError;
use crate::host::{
    fetch_reply, folder_changes_reply, git_changes_reply, parse_reply, strict_reply, tree_reply,
    Host, LoadResult, Surroundings,
};
use crate::ops::{
    BackendChanges, ChangeEnvelope, ChangesReport, FetchOutcome, MemChangedNotice, PullOutcome,
    PushOutcome, Similarity, SourceEntry, WarningHint,
};
use crate::schema::Schema;
use crate::sort::{lemma_same_members, views};
use crate::text::{contains, lemma_find, occurs_at, opt_text, starts, texts};
use crate::workspace::MountStorage;
use std::sync::Arc;
use vstd::prelude::*;

verus! {

// ---------------------------------------------------------------------
// Change reports
// ---------------------------------------------------------------------

/// Whether two changes are of the same kind and of the same entity or
/// entities.
pub open spec fn same_change(a: ChangeEnvelope, b: ChangeEnvelope) -> bool {
    match (a, b) {
        (ChangeEnvelope::Added { id: x, .. }, ChangeEnvelope::Added { id: y, .. }) => x == y,
        (ChangeEnvelope::Updated { id: x, .. }, ChangeEnvelope::Updated { id: y, .. }) => x == y,
        (ChangeEnvelope::Removed { id: x, .. }, ChangeEnvelope::Removed { id: y, .. }) => x == y,
        (
            ChangeEnvelope::Renamed { from_id: x, to_id: u, .. },
            ChangeEnvelope::Renamed { from_id: y, to_id: v, .. },
        ) => x == y && u == v,
        _ => false,
    }
}

/// Whether a title and a type are those of an entity of the store with the
/// id, or missing where the store has none.
pub open spec fn named_from(
    entities: Seq<Entity>,
    id: EntityId,
    title: Option<String>,
    entity_type: Option<String>,
) -> bool {
    ||| title is None && entity_type is None && forall|k: int|
        0 <= k < entities.len() ==> (#[trigger] entities[k]).id.0@ != id.0@
    ||| exists|k: int|
        0 <= k < entities.len() && (#[trigger] entities[k]).id.0@ == id.0@ && title == Some(
            entities[k].title,
        ) && entity_type == Some(entities[k].entity_type)
}

/// Whether a reported change names its entity as the store knows it: what is
/// there by its title and type, what was removed by neither.
pub open spec fn named_rightly(entities: Seq<Entity>, change: ChangeEnvelope) -> bool {
    match change {
        ChangeEnvelope::Added { id, title, entity_type } => named_from(
            entities,
            id,
            title,
            entity_type,
        ),
        ChangeEnvelope::Updated { id, title, entity_type } => named_from(
            entities,
            id,
            title,
            entity_type,
        ),
        ChangeEnvelope::Renamed { from_id, to_id, title, entity_type } => named_from(
            entities,
            to_id,
            title,
            entity_type,
        ),
        ChangeEnvelope::Removed { id, title, entity_type } => title is None && entity_type is None,
    }
}

/// A report keeps what the backend told of: as many changes, in the same
/// order, each of the same kind and of the same entity, from the same cursor
/// to the same head. Only titles and types are filled in, as the store knows
/// them.
pub proof fn law_report_keeps_what_was_told(
    mem: Seq<char>,
    entities: Seq<Entity>,
    told: BackendChanges,
    report: ChangesReport,
)
    requires
        reports(mem, entities, told, report),
    ensures
        report.mem@ == mem,
        report.since == told.since,
        report.head == told.head,
        report.changes@.len() == told.changes@.len(),
        forall|i: int|
            0 <= i < told.changes@.len() ==> same_change(
                told.changes@[i],
                #[trigger] report.changes@[i],
            ) && named_rightly(entities, report.changes@[i]),
{
    assert forall|i: int| 0 <= i < told.changes@.len() implies same_change(
        told.changes@[i],
        #[trigger] report.changes@[i],
    ) && named_rightly(entities, report.changes@[i]) by {
        let c = told.changes@[i];
        assert(report.changes@[i] == all_enriched(entities, told.changes@)[i]);
        let id = match c {
            ChangeEnvelope::Added { id, .. } => id,
            ChangeEnvelope::Updated { id, .. } => id,
            ChangeEnvelope::Removed { id, .. } => id,
            ChangeEnvelope::Renamed { to_id, .. } => to_id,
        };
        lemma_entity_index(entities, id.0@, 0);
    }
}

/// The ids that a reset would take away are just those that the changes added
/// or renamed something to.
pub proof fn law_discarded_is_what_came(changes: Seq<ChangeEnvelope>, gone: Seq<char>)
    ensures
        discarded(changes).contains(gone) <==> exists|i: int|
            0 <= i < changes.len() && brings(#[trigger] changes[i], gone),
    decreases changes.len(),
{
    let all = discarded(changes);
    if changes.len() > 0 {
        let head = changes.drop_last();
        let rest = discarded(head);
        let n = changes.len() - 1;
        law_discarded_is_what_came(head, gone);
        if exists|i: int| 0 <= i < changes.len() && brings(#[trigger] changes[i], gone) {
            let i = choose|i: int| 0 <= i < changes.len() && brings(#[trigger] changes[i], gone);
            if i < n {
                assert(brings(head[i], gone));
                let k = choose|k: int| 0 <= k < rest.len() && rest[k] == gone;
                assert(all[k] == gone);
            } else {
                assert(all[rest.len() as int] == gone);
            }
        }
        if all.contains(gone) {
            let k = choose|k: int| 0 <= k < all.len() && all[k] == gone;
            if k < rest.len() {
                assert(rest[k] == gone);
                assert(rest.contains(gone));
                let i = choose|i: int| 0 <= i < head.len() && brings(#[trigger] head[i], gone);
                assert(brings(changes[i], gone));
            } else {
                assert(brings(changes[n], gone));
            }
        }
    }
}

/// Whether a change brought an id that was not there before it.
pub open spec fn brings(change: ChangeEnvelope, id: Seq<char>) -> bool {
    match change {
        ChangeEnvelope::Added { id: x, .. } => x.0@ == id,
        ChangeEnvelope::Renamed { to_id, .. } => to_id.0@ == id,
        ChangeEnvelope::Updated { .. } => false,
        ChangeEnvelope::Removed { .. } => false,
    }
}

/// Whether an entity of another mem holds an edge to an id that the changes
/// brought, as `v` tells it.
pub open spec fn is_stranded(
    entities: Seq<Entity>,
    mem: Seq<char>,
    changes: Seq<ChangeEnvelope>,
    v: StrandedView,
) -> bool {
    &&& v.from_mem != mem
    &&& exists|i: int| 0 <= i < changes.len() && brings(#[trigger] changes[i], v.to_id)
    &&& exists|j: int|
        0 <= j < entities.len() && (#[trigger] entities[j]).id.0@ == v.from_id && entities[j].mem@
            == v.from_mem && holds_edge(entities[j].relationships@, v)
}

/// Whether an edge of a list leads where `v` tells, with its type.
pub open spec fn holds_edge(edges: Seq<Relationship>, v: StrandedView) -> bool {
    exists|k: int|
        0 <= k < edges.len() && (#[trigger] edges[k]).target.0@ == v.to_id && edges[k].rel_type@
            == v.rel_type
}

/// The stranded edges of an entity.
proof fn lemma_edges(
    e: Entity,
    edges: Seq<Relationship>,
    gone: Seq<Seq<char>>,
    v: StrandedView,
)
    ensures
        stranded_edges(e, edges, gone).contains(v) <==> v.from_id == e.id.0@ && v.from_mem == e.mem@
            && gone.contains(v.to_id) && holds_edge(edges, v),
    decreases edges.len(),
{
    let all = stranded_edges(e, edges, gone);
    if edges.len() > 0 {
        let head = edges.drop_last();
        let rest = stranded_edges(e, head, gone);
        let n = edges.len() - 1;
        lemma_edges(e, head, gone, v);
        if all.contains(v) {
            let k = choose|k: int| 0 <= k < all.len() && all[k] == v;
            if k < rest.len() {
                assert(rest[k] == v);
                assert(rest.contains(v));
                let i = choose|i: int|
                    0 <= i < head.len() && (#[trigger] head[i]).target.0@ == v.to_id
                        && head[i].rel_type@ == v.rel_type;
                assert(edges[i] == head[i]);
            } else {
                assert(edges[n].target.0@ == v.to_id);
            }
        }
        if v.from_id == e.id.0@ && v.from_mem == e.mem@ && gone.contains(v.to_id) && holds_edge(
            edges,
            v,
        ) {
            let i = choose|i: int|
                0 <= i < edges.len() && (#[trigger] edges[i]).target.0@ == v.to_id
                    && edges[i].rel_type@ == v.rel_type;
            if i < n {
                assert(head[i] == edges[i]);
                let k = choose|k: int| 0 <= k < rest.len() && rest[k] == v;
                assert(all[k] == v);
            } else {
                assert(all[rest.len() as int] == v);
            }
        }
    }
}

/// The stranded edges of entities.
proof fn lemma_stranded(
    entities: Seq<Entity>,
    mem: Seq<char>,
    gone: Seq<Seq<char>>,
    v: StrandedView,
)
    ensures
        stranded_among(entities, mem, gone).contains(v) <==> v.from_mem != mem && gone.contains(
            v.to_id,
        ) && exists|j: int|
            0 <= j < entities.len() && (#[trigger] entities[j]).id.0@ == v.from_id
                && entities[j].mem@ == v.from_mem && holds_edge(entities[j].relationships@, v),
    decreases entities.len(),
{
    let all = stranded_among(entities, mem, gone);
    if entities.len() > 0 {
        let head = entities.drop_last();
        let rest = stranded_among(head, mem, gone);
        let n = entities.len() - 1;
        let e = entities[n];
        let own = stranded_edges(e, e.relationships@, gone);
        lemma_stranded(head, mem, gone, v);
        lemma_edges(e, e.relationships@, gone, v);
        if all.contains(v) {
            let k = choose|k: int| 0 <= k < all.len() && all[k] == v;
            if k < rest.len() {
                assert(rest[k] == v);
                assert(rest.contains(v));
                let j = choose|j: int|
                    0 <= j < head.len() && (#[trigger] head[j]).id.0@ == v.from_id && head[j].mem@
                        == v.from_mem && holds_edge(head[j].relationships@, v);
                assert(entities[j] == head[j]);
            } else {
                assert(own[k - rest.len()] == v);
                assert(own.contains(v));
                assert(holds_edge(entities[n].relationships@, v));
            }
        }
        if v.from_mem != mem && gone.contains(v.to_id) && exists|j: int|
            0 <= j < entities.len() && (#[trigger] entities[j]).id.0@ == v.from_id
                && entities[j].mem@ == v.from_mem && holds_edge(entities[j].relationships@, v) {
            let j = choose|j: int|
                0 <= j < entities.len() && (#[trigger] entities[j]).id.0@ == v.from_id
                    && entities[j].mem@ == v.from_mem && holds_edge(entities[j].relationships@, v);
            if j < n {
                assert(head[j] == entities[j]);
                let k = choose|k: int| 0 <= k < rest.len() && rest[k] == v;
                assert(all[k] == v);
            } else {
                let k = choose|k: int| 0 <= k < own.len() && own[k] == v;
                assert(all[rest.len() + k] == v);
            }
        }
    }
}

/// What a reset would strand is just the edges that entities of other mems
/// hold to what the changes brought.
pub proof fn law_stranded_is_what_points_there(
    entities: Seq<Entity>,
    mem: Seq<char>,
    changes: Seq<ChangeEnvelope>,
    v: StrandedView,
)
    ensures
        stranded(entities, mem, changes).contains(v) <==> is_stranded(entities, mem, changes, v),
{
    let gone = discarded(changes);
    lemma_same_members(
        stranded_among(entities, mem, gone),
        |a: StrandedView, b: StrandedView| crate::drift::stranded_less(a, b),
        v,
    );
    lemma_stranded(entities, mem, gone, v);
    law_discarded_is_what_came(changes, v.to_id);
}

// ---------------------------------------------------------------------
// Pulls and pushes
// ---------------------------------------------------------------------

/// Whether a file of a tree is in order: an entity that was parsed from it is
/// of a type of the schema, and the host found nothing against it.
pub open spec fn file_stands<H: Host>(
    h: &Surroundings<H>,
    file: (Seq<char>, Seq<char>),
    entities: Seq<Entity>,
    schema: Arc<Schema>,
) -> bool {
    (exists|k: int| 0 <= k < entities.len() && (#[trigger] entities[k]).file_path@ == file.0)
        ==> exists|k: int|
        0 <= k < entities.len() && (#[trigger] entities[k]).file_path@ == file.0 && (
        schema.type_named(entities[k].entity_type@) matches Some(t) && strict_reply(
            h,
            file.1,
            entities[k],
            t,
            file.0,
            Ok(()),
        ))
}

/// Whether a tree is in order: the host's loader parsed every file of it, and
/// each is in order.
pub open spec fn tree_stands<H: Host>(
    h: &Surroundings<H>,
    mem: Seq<char>,
    schema: Arc<Schema>,
    files: Seq<(Seq<char>, Seq<char>)>,
) -> bool {
    exists|load: LoadResult| #[trigger]
        parse_reply(h, files, Seq::empty(), mem, schema, Seq::empty(), load) && load.errors@.len()
            == 0 && forall|i: int|
            0 <= i < files.len() ==> file_stands(h, #[trigger] files[i], load.entities@, schema)
}

/// Whether a list of violations names a path, followed by what is wrong.
pub open spec fn names_path(violations: Seq<Seq<char>>, path: Seq<char>) -> bool {
    exists|k: int| 0 <= k < violations.len() && starts(#[trigger] violations[k], path)
}

/// The entity found for a path is one of that path, and one is found where
/// there is one.
proof fn lemma_parsed_at(entities: Seq<Entity>, path: Seq<char>)
    ensures
        parsed_at(entities, path) matches Some(e) ==> e.file_path@ == path && entities.contains(e),
        parsed_at(entities, path) is None ==> forall|k: int|
            0 <= k < entities.len() ==> (#[trigger] entities[k]).file_path@ != path,
    decreases entities.len(),
{
    if entities.len() > 0 {
        let head = entities.drop_last();
        lemma_parsed_at(head, path);
        let n = entities.len() - 1;
        assert(entities[n] == entities.last());
        match parsed_at(entities, path) {
            Some(e) => {
                if entities.last().file_path@ == path {
                    assert(entities.contains(entities[n]));
                } else {
                    let k = choose|k: int| 0 <= k < head.len() && head[k] == e;
                    assert(entities[k] == e);
                }
            },
            None => {
                assert forall|k: int| 0 <= k < entities.len() implies (
                #[trigger] entities[k]).file_path@ != path by {
                    if k < n {
                        assert(entities[k] == head[k]);
                    }
                }
            },
        }
    }
}

/// Where no file of a tree has a violation, each is in order.
proof fn lemma_no_violation<H: Host>(
    h: &Surroundings<H>,
    files: Seq<(Seq<char>, Seq<char>)>,
    entities: Seq<Entity>,
    schema: Arc<Schema>,
    verdicts: Seq<Result<(), String>>,
)
    requires
        verdicts.len() == files.len(),
        forall|i: int|
            0 <= i < files.len() ==> verdict_was_told(
                h,
                files[i],
                entities,
                schema,
                #[trigger] verdicts[i],
            ),
        tree_violations(files, entities, schema, verdicts).len() == 0,
    ensures
        forall|i: int|
            0 <= i < files.len() ==> file_stands(h, #[trigger] files[i], entities, schema),
    decreases files.len(),
{
    if files.len() > 0 {
        let n = files.len() - 1;
        let head = files.drop_last();
        let before = verdicts.drop_last();
        assert forall|i: int| 0 <= i < head.len() implies verdict_was_told(
            h,
            head[i],
            entities,
            schema,
            #[trigger] before[i],
        ) by {
            assert(before[i] == verdicts[i]);
        }
        lemma_no_violation(h, head, entities, schema, before);
        assert(file_violation(files[n], entities, schema, verdicts[n]).len() == 0);
        assert(verdict_was_told(h, files[n], entities, schema, verdicts[n]));
        lemma_parsed_at(entities, files[n].0);
        if let Some(e) = parsed_at(entities, files[n].0) {
            let k = choose|k: int| 0 <= k < entities.len() && entities[k] == e;
            assert(entities[k].file_path@ == files[n].0);
            let told = verdicts[n]->Ok_0;
            assert(told == ());
        }
        assert forall|i: int| 0 <= i < files.len() implies file_stands(
            h,
            #[trigger] files[i],
            entities,
            schema,
        ) by {
            if i < n {
                assert(files[i] == head[i]);
            }
        }
    }
}

/// A file that did not parse is named among the violations.
proof fn lemma_unparsed_is_named(
    errors: Seq<(Seq<char>, Seq<char>)>,
    more: Seq<Seq<char>>,
    i: int,
)
    requires
        0 <= i < errors.len(),
    ensures
        names_path(parse_violations(errors) + more, errors[i].0),
{
    let all = parse_violations(errors) + more;
    let line = errors[i].0 + ": "@ + errors[i].1;
    assert(all[i] == line);
    assert(line.subrange(0, errors[i].0.len() as int) =~= errors[i].0);
    assert(starts(all[i], errors[i].0));
}

/// A tree that holding it to the schema accepts is in order: its ref could be
/// read, the loader parsed every file, and each parsed entity is of a type of
/// the schema and passed what the host holds it to.
pub proof fn law_accepted_tree_is_in_order<B, H: Host>(
    engine: Engine<B, H>,
    gitdir: Seq<char>,
    mem: Seq<char>,
    ref_name: Seq<char>,
)
    requires
        checks_ref(engine, gitdir, mem, ref_name, Ok::<(), EngineError>(())),
    ensures
        exists|files: Vec<SourceEntry>| #[trigger]
            tree_reply(
                &engine.host,
                gitdir,
                ref_name,
                Some(Ok::<Vec<SourceEntry>, BackendError>(files)),
            ) && (schema_of(engine.schemas@, mem) matches Some(schema) && tree_stands(
                &engine.host,
                mem,
                schema,
                views(files@),
            )),
{
    let r = Ok::<(), EngineError>(());
    let schema = schema_of(engine.schemas@, mem)->0;
    let reply = choose|reply: Option<Result<Vec<SourceEntry>, BackendError>>| #[trigger]
        tree_reply(&engine.host, gitdir, ref_name, reply) && match reply {
            Some(Ok(files)) => checks_tree(
                &engine.host,
                mem,
                ref_name,
                schema,
                views(files@),
                r,
            ),
            _ => false,
        };
    let files = (reply->0)->Ok_0;
    assert(reply == Some(Ok::<Vec<SourceEntry>, BackendError>(files)));
    let fv = views(files@);
    let (load, verdicts) = choose|load: LoadResult, verdicts: Seq<Result<(), String>>|
        #![trigger parse_reply(&engine.host, fv, Seq::empty(), mem, schema, Seq::empty(), load), tree_violations(fv, load.entities@, schema, verdicts)]
        parse_reply(&engine.host, fv, Seq::empty(), mem, schema, Seq::empty(), load)
            && verdicts.len() == fv.len() && (forall|i: int|
            0 <= i < fv.len() ==> verdict_was_told(
                &engine.host,
                fv[i],
                load.entities@,
                schema,
                #[trigger] verdicts[i],
            )) && refuses_violations(
            mem,
            ref_name,
            parse_violations(views(load.errors@)) + tree_violations(
                fv,
                load.entities@,
                schema,
                verdicts,
            ),
            r,
        );
    let told = parse_violations(views(load.errors@));
    assert(told.len() == load.errors@.len());
    assert((told + tree_violations(fv, load.entities@, schema, verdicts)).len() == 0);
    lemma_no_violation(&engine.host, fv, load.entities@, schema, verdicts);
    assert(tree_stands(&engine.host, mem, schema, fv));
}

/// Whether every reading of a ref gives a tree of which the loader reports
/// that the file at `path` did not parse.
pub open spec fn is_torn_at<H: Host>(
    h: &Surroundings<H>,
    gitdir: Seq<char>,
    mem: Seq<char>,
    ref_name: Seq<char>,
    schema: Arc<Schema>,
    path: Seq<char>,
) -> bool {
    forall|reply: Option<Result<Vec<SourceEntry>, BackendError>>| #[trigger]
        tree_reply(h, gitdir, ref_name, reply) ==> (reply matches Some(Ok(files)) && forall|
            load: LoadResult,
        | #[trigger]
            parse_reply(
                h,
                views(files@),
                Seq::empty(),
                mem,
                schema,
                Seq::empty(),
                load,
            ) ==> reports_path(views(load.errors@), path))
}

/// Whether a list of load errors names a path.
pub open spec fn reports_path(errors: Seq<(Seq<char>, Seq<char>)>, path: Seq<char>) -> bool {
    exists|i: int| 0 <= i < errors.len() && (#[trigger] errors[i]).0 == path
}

/// A tree with a file that does not parse is refused, and the refusal names
/// the mem, the ref and the path of the file.
pub proof fn law_torn_tree_is_refused<B, H: Host>(
    engine: Engine<B, H>,
    gitdir: Seq<char>,
    mem: Seq<char>,
    ref_name: Seq<char>,
    path: Seq<char>,
    r: Result<(), EngineError>,
)
    requires
        checks_ref(engine, gitdir, mem, ref_name, r),
        schema_of(engine.schemas@, mem) is Some,
        is_torn_at(
            &engine.host,
            gitdir,
            mem,
            ref_name,
            schema_of(engine.schemas@, mem)->0,
            path,
        ),
    ensures
        r matches Err(EngineError::SchemaViolationInFetch { mem: m, ref_name: n, violations })
            && m@ == mem && n@ == ref_name && names_path(texts(violations@), path),
{
    let schema = schema_of(engine.schemas@, mem)->0;
    let reply = choose|reply: Option<Result<Vec<SourceEntry>, BackendError>>| #[trigger]
        tree_reply(&engine.host, gitdir, ref_name, reply) && match reply {
            Some(Ok(files)) => checks_tree(
                &engine.host,
                mem,
                ref_name,
                schema,
                views(files@),
                r,
            ),
            _ => false,
        };
    let fv = views(((reply->0)->Ok_0)@);
    let (load, verdicts) = choose|load: LoadResult, verdicts: Seq<Result<(), String>>|
        #![trigger parse_reply(&engine.host, fv, Seq::empty(), mem, schema, Seq::empty(), load), tree_violations(fv, load.entities@, schema, verdicts)]
        parse_reply(&engine.host, fv, Seq::empty(), mem, schema, Seq::empty(), load)
            && refuses_violations(
            mem,
            ref_name,
            parse_violations(views(load.errors@)) + tree_violations(
                fv,
                load.entities@,
                schema,
                verdicts,
            ),
            r,
        );
    let errors = views(load.errors@);
    assert(reports_path(errors, path));
    let i = choose|i: int| 0 <= i < errors.len() && (#[trigger] errors[i]).0 == path;
    lemma_unparsed_is_named(errors, tree_violations(fv, load.entities@, schema, verdicts), i);
}

/// A pull whose fetched tree holds a file that does not parse is refused with
/// the path of that file: the branch is not moved, and beyond the fetch
/// nothing is asked of the surroundings.
#[verifier::rlimit(40)]
pub proof fn law_torn_tree_is_not_pulled<B, H: Host>(
    pre: Engine<B, H>,
    mem: Seq<char>,
    remote: Seq<char>,
    path: Seq<char>,
    post: Engine<B, H>,
    r: Result<PullOutcome, EngineError>,
)
    requires
        pulls(pre, mem, remote, post, r),
        repo_of(pre, mem) is Some,
        schema_of(pre.schemas@, mem) is Some,
        forall|reply: Option<Result<FetchOutcome, BackendError>>| #[trigger]
            fetch_reply(&pre.host, repo_of(pre, mem)->0, remote, Seq::empty(), reply) ==> (reply
                matches Some(Ok(_))),
        is_torn_at(
            &pre.host,
            repo_of(pre, mem)->0,
            mem,
            "refs/remotes/"@ + remote + "/"@ + mem,
            schema_of(pre.schemas@, mem)->0,
            path,
        ),
    ensures
        r matches Err(EngineError::SchemaViolationInFetch { mem: m, violations, .. }) && m@ == mem
            && names_path(texts(violations@), path),
        post == (Engine { host: post.host, ..pre }),
        post.host.calls() == pre.host.calls() + seq![fetch_all(repo_of(pre, mem)->0, remote)],
{
    let at = pre.mount_at(mem)->0;
    let gitdir = repo_of(pre, mem)->0;
    let ref_name = "refs/remotes/"@ + remote + "/"@ + mem;
    let (fetched, mid) = choose|
        fetched: Option<Result<FetchOutcome, BackendError>>,
        mid: Engine<B, H>,
    |
        #![trigger fetch_reply(&pre.host, gitdir, remote, Seq::empty(), fetched), crate::engine::asked(pre, mid, seq![fetch_all(gitdir, remote)])]
        fetch_reply(&pre.host, gitdir, remote, Seq::empty(), fetched) && crate::engine::asked(
            pre,
            mid,
            seq![fetch_all(gitdir, remote)],
        ) && match fetched {
            Some(Ok(_)) => pulls_fetched(mid, at, gitdir, mem, remote, post, r),
            _ => !(fetched matches Some(Ok(_))),
        };
    assert(pulls_fetched(mid, at, gitdir, mem, remote, post, r));
    let valid = choose|valid: Result<(), EngineError>| #[trigger]
        checks_ref(mid, gitdir, mem, ref_name, valid) && match valid {
            Err(e) => post == mid && r == Err::<PullOutcome, EngineError>(e),
            Ok(_) => crate::drift::pulls_valid(mid, at, gitdir, mem, remote, post, r),
        };
    assert forall|reply: Option<Result<Vec<SourceEntry>, BackendError>>| #[trigger]
        tree_reply(&mid.host, gitdir, ref_name, reply) implies (reply matches Some(Ok(files))
        && forall|load: LoadResult| #[trigger]
        parse_reply(
            &mid.host,
            views(files@),
            Seq::empty(),
            mem,
            schema_of(pre.schemas@, mem)->0,
            Seq::empty(),
            load,
        ) ==> reports_path(views(load.errors@), path)) by {
        assert(tree_reply(&pre.host, gitdir, ref_name, reply));
        let files = (reply->0)->Ok_0;
        assert forall|load: LoadResult| #[trigger]
            parse_reply(
                &mid.host,
                views(files@),
                Seq::empty(),
                mem,
                schema_of(pre.schemas@, mem)->0,
                Seq::empty(),
                load,
            ) implies reports_path(views(load.errors@), path) by {
            assert(parse_reply(
                &pre.host,
                views(files@),
                Seq::empty(),
                mem,
                schema_of(pre.schemas@, mem)->0,
                Seq::empty(),
                load,
            ));
        }
    }
    assert(is_torn_at(
        &mid.host,
        gitdir,
        mem,
        ref_name,
        schema_of(mid.schemas@, mem)->0,
        path,
    ));
    law_torn_tree_is_refused(mid, gitdir, mem, ref_name, path, valid);
}

/// A branch with a file that does not parse is not pushed: the push is refused
/// as invalid, nothing is asked of the surroundings, and the refusal holds the
/// path of the file.
#[verifier::rlimit(40)]
pub proof fn law_torn_branch_is_not_pushed<B, H: Host>(
    pre: Engine<B, H>,
    mem: Seq<char>,
    remote: Seq<char>,
    force: bool,
    path: Seq<char>,
    post: Engine<B, H>,
    r: Result<PushOutcome, EngineError>,
)
    requires
        pushes(pre, mem, remote, force, post, r),
        repo_of(pre, mem) is Some,
        schema_of(pre.schemas@, mem) is Some,
        is_torn_at(
            &pre.host,
            repo_of(pre, mem)->0,
            mem,
            "refs/heads/"@ + mem,
            schema_of(pre.schemas@, mem)->0,
            path,
        ),
    ensures
        post == pre,
        r matches Err(EngineError::LocalInvalidState { mem: m, remote: o, detail }) && m@ == mem
            && o@ == remote && contains(detail@, path),
{
    let gitdir = repo_of(pre, mem)->0;
    let ref_name = "refs/heads/"@ + mem;
    let valid = choose|valid: Result<(), EngineError>| #[trigger]
        checks_ref(pre, gitdir, mem, ref_name, valid) && match valid {
            Err(EngineError::SchemaViolationInFetch { mem: n, ref_name, violations }) => post == pre
                && (r matches Err(
                EngineError::LocalInvalidState { mem: m2, remote: r2, detail },
            ) && m2@ == mem && r2@ == remote && detail@ == crate::text::decimal(violations@.len())
                + " violation(s) in local branch: "@ + crate::text::join(
                texts(violations@),
                "; "@,
            )),
            _ => crate::drift::pushes_valid(pre, gitdir, mem, remote, force, post, r),
        };
    law_torn_tree_is_refused(pre, gitdir, mem, ref_name, path, valid);
    if let Err(EngineError::SchemaViolationInFetch { violations, .. }) = valid {
        let all = texts(violations@);
        let k = choose|k: int| 0 <= k < all.len() && starts(#[trigger] all[k], path);
        let head = crate::text::decimal(violations@.len()) + " violation(s) in local branch: "@;
        let p = crate::text::lemma_join_holds(all, "; "@, k);
        let detail = head + crate::text::join(all, "; "@);
        assert(detail.subrange(head.len() + p, head.len() + p + path.len()) =~= all[k].subrange(
            0,
            path.len() as int,
        )) by {
            assert(crate::text::join(all, "; "@).subrange(p, p + all[k].len()) == all[k]);
            assert forall|i: int| 0 <= i < path.len() implies detail[head.len() + p + i]
                == all[k][i] by {
                assert(crate::text::join(all, "; "@).subrange(p, p + all[k].len())[i] == all[k][i]);
            }
        }
        assert(occurs_at(detail, path, head.len() + p));
        lemma_find(detail, path, 0);
    }
}

// ---------------------------------------------------------------------
// Reloads
// ---------------------------------------------------------------------

/// A reload drops just the entities of the mem that it reads: those of every
/// other mem stay, in their order.
pub proof fn law_reload_drops_its_mem_alone(entities: Seq<Entity>, mem: Seq<char>)
    ensures
        forall|k: int|
            0 <= k < without_mem(entities, mem).len() ==> (#[trigger] without_mem(
                entities,
                mem,
            )[k]).mem@ != mem && entities.contains(without_mem(entities, mem)[k]),
        forall|i: int|
            0 <= i < entities.len() && (#[trigger] entities[i]).mem@ != mem ==> without_mem(
                entities,
                mem,
            ).contains(entities[i]),
    decreases entities.len(),
{
    if entities.len() > 0 {
        let head = entities.drop_last();
        let n = entities.len() - 1;
        law_reload_drops_its_mem_alone(head, mem);
        let rest = without_mem(head, mem);
        let all = without_mem(entities, mem);
        assert forall|k: int| 0 <= k < all.len() implies (#[trigger] all[k]).mem@ != mem
            && entities.contains(all[k]) by {
            if k < rest.len() {
                assert(all[k] == rest[k]);
                let i = choose|i: int| 0 <= i < head.len() && head[i] == rest[k];
                assert(entities[i] == all[k]);
            } else {
                assert(entities[n] == all[k]);
            }
        }
        assert forall|i: int| 0 <= i < entities.len() && (#[trigger] entities[i]).mem@
            != mem implies all.contains(entities[i]) by {
            if i < n {
                assert(head[i] == entities[i]);
                let k = choose|k: int| 0 <= k < rest.len() && rest[k] == entities[i];
                assert(all[k] == entities[i]);
            } else {
                assert(all[rest.len() as int] == entities[i]);
            }
        }
    }
}

/// What a reload reports as added is what the store held under no id, and what
/// it reports as changed is what it held with another content hash; what is
/// neither was held just so.
pub proof fn law_reload_reports_what_differs(known: Seq<Entity>, loaded: Seq<Entity>, id: Seq<char>)
    ensures
        (exists|k: int|
            0 <= k < added_ids(known, loaded).len() && (#[trigger] added_ids(known, loaded)[k]).0@
                == id) <==> (exists|i: int|
            0 <= i < loaded.len() && (#[trigger] loaded[i]).id.0@ == id) && forall|j: int|
            0 <= j < known.len() ==> (#[trigger] known[j]).id.0@ != id,
        (exists|k: int|
            0 <= k < changed_ids(known, loaded).len() && (#[trigger] changed_ids(
                known,
                loaded,
            )[k]).0@ == id) <==> exists|i: int|
            0 <= i < loaded.len() && (#[trigger] loaded[i]).id.0@ == id && (entity_of(known, id)
                matches Some(e) && e.content_hash@ != loaded[i].content_hash@),
    decreases loaded.len(),
{
    lemma_entity_index(known, id, 0);
    let added = added_ids(known, loaded);
    let changed = changed_ids(known, loaded);
    if loaded.len() > 0 {
        let head = loaded.drop_last();
        let n = loaded.len() - 1;
        law_reload_reports_what_differs(known, head, id);
        let a = added_ids(known, head);
        let c = changed_ids(known, head);
        lemma_entity_index(known, loaded[n].id.0@, 0);
        // Added.
        if exists|k: int| 0 <= k < added.len() && (#[trigger] added[k]).0@ == id {
            let k = choose|k: int| 0 <= k < added.len() && (#[trigger] added[k]).0@ == id;
            if k < a.len() {
                assert(a[k].0@ == id);
                let i = choose|i: int| 0 <= i < head.len() && (#[trigger] head[i]).id.0@ == id;
                assert(loaded[i].id.0@ == id);
            } else {
                assert(loaded[n].id.0@ == id);
            }
        }
        if (exists|i: int| 0 <= i < loaded.len() && (#[trigger] loaded[i]).id.0@ == id) && forall|
            j: int,
        | 0 <= j < known.len() ==> (#[trigger] known[j]).id.0@ != id {
            let i = choose|i: int| 0 <= i < loaded.len() && (#[trigger] loaded[i]).id.0@ == id;
            if i < n {
                assert(head[i].id.0@ == id);
                let k = choose|k: int| 0 <= k < a.len() && (#[trigger] a[k]).0@ == id;
                assert(added[k].0@ == id);
            } else {
                assert(added[a.len() as int].0@ == id);
            }
        }
        // Changed.
        if exists|k: int| 0 <= k < changed.len() && (#[trigger] changed[k]).0@ == id {
            let k = choose|k: int| 0 <= k < changed.len() && (#[trigger] changed[k]).0@ == id;
            if k < c.len() {
                assert(c[k].0@ == id);
                let i = choose|i: int|
                    0 <= i < head.len() && (#[trigger] head[i]).id.0@ == id && (entity_of(known, id)
                        matches Some(e) && e.content_hash@ != head[i].content_hash@);
                assert(loaded[i] == head[i]);
            } else {
                assert(loaded[n].id.0@ == id);
            }
        }
        if exists|i: int|
            0 <= i < loaded.len() && (#[trigger] loaded[i]).id.0@ == id && (entity_of(known, id)
                matches Some(e) && e.content_hash@ != loaded[i].content_hash@) {
            let i = choose|i: int|
                0 <= i < loaded.len() && (#[trigger] loaded[i]).id.0@ == id && (entity_of(known, id)
                    matches Some(e) && e.content_hash@ != loaded[i].content_hash@);
            if i < n {
                assert(head[i] == loaded[i]);
                let k = choose|k: int| 0 <= k < c.len() && (#[trigger] c[k]).0@ == id;
                assert(changed[k].0@ == id);
            } else {
                assert(changed[c.len() as int].0@ == id);
            }
        }
    }
}

/// An entity of another mem that nothing loaded replaces stays in the store; an
/// entity of the mem that was not loaded again is gone from it.
pub proof fn law_reload_swaps_one_mem(
    before: Seq<Entity>,
    mem: Seq<char>,
    loaded: Seq<Entity>,
    i: int,
)
    requires
        ids_unique(before),
        0 <= i < before.len(),
        forall|k: int| 0 <= k < loaded.len() ==> (#[trigger] loaded[k]).id.0@ != before[i].id.0@,
    ensures
        entity_of(with_entities(without_mem(before, mem), loaded), before[i].id.0@) == (
        if before[i].mem@ == mem {
            None
        } else {
            Some(before[i])
        }),
{
    let rest = without_mem(before, mem);
    let id = before[i].id.0@;
    law_reload_drops_its_mem_alone(before, mem);
    lemma_entity_index(rest, id, 0);
    match entity_of(rest, id) {
        Some(e) => {
            let k = entity_index(rest, id, 0)->0;
            assert(rest[k] == e);
            assert(before.contains(rest[k]));
            let j = choose|j: int| 0 <= j < before.len() && before[j] == rest[k];
            assert(before[j].id.0@ == before[i].id.0@);
            assert(j == i);
        },
        None => {
            if before[i].mem@ != mem {
                assert(rest.contains(before[i]));
                let k = choose|k: int| 0 <= k < rest.len() && rest[k] == before[i];
                assert(rest[k].id.0@ == id);
            }
        },
    }
    lemma_unloaded(rest, loaded, id);
}

/// What is found under an id that nothing loaded has stays.
proof fn lemma_unloaded(s: Seq<Entity>, more: Seq<Entity>, id: Seq<char>)
    requires
        forall|k: int| 0 <= k < more.len() ==> (#[trigger] more[k]).id.0@ != id,
    ensures
        entity_of(with_entities(s, more), id) == entity_of(s, id),
    decreases more.len(),
{
    if more.len() > 0 {
        let head = more.drop_last();
        assert forall|k: int| 0 <= k < head.len() implies (#[trigger] head[k]).id.0@ != id by {
            assert(head[k] == more[k]);
        }
        lemma_unloaded(s, head, id);
        assert(more.last() == more[more.len() - 1]);
        lemma_put_entity(with_entities(s, head), more.last(), id);
    }
}

/// A reload takes back the errors of its own mount, and only those: in a
/// folder those of paths in it, elsewhere those of what was read. Of the
/// warnings it takes back that its mem is not backed, and no other.
pub proof fn law_reload_takes_back_its_own(
    errors: Seq<(Seq<char>, Seq<char>)>,
    storage: MountStorage,
    read: Seq<Seq<char>>,
    e: (Seq<char>, Seq<char>),
    ws: Seq<WarningHint>,
    mem: Seq<char>,
    w: WarningHint,
)
    ensures
        without_errors(errors, storage, read).contains(e) <==> errors.contains(e) && !is_of_mount(
            storage,
            read,
            e.0,
        ),
        without_unbacked(ws, mem).contains(w) <==> ws.contains(w) && !(w
            matches WarningHint::MountUnbacked { mem: m, .. } && m@ == mem),
{
    lemma_without_errors(errors, storage, read, e);
    lemma_without_unbacked(ws, mem, w);
}

/// Whether a path is one of a mount: in its folder or below it, or among what
/// was read.
pub open spec fn is_of_mount(storage: MountStorage, read: Seq<Seq<char>>, path: Seq<char>) -> bool {
    match storage {
        MountStorage::Folder { path: root } => path == root@ || (if root@.len() == 0 || root@.last()
            == '/' {
            starts(path, root@)
        } else {
            starts(path, root@ + seq!['/'])
        }),
        _ => read.contains(path),
    }
}

/// Which errors stay.
proof fn lemma_without_errors(
    errors: Seq<(Seq<char>, Seq<char>)>,
    storage: MountStorage,
    read: Seq<Seq<char>>,
    e: (Seq<char>, Seq<char>),
)
    ensures
        without_errors(errors, storage, read).contains(e) <==> errors.contains(e) && !is_of_mount(
            storage,
            read,
            e.0,
        ),
    decreases errors.len(),
{
    let all = without_errors(errors, storage, read);
    if errors.len() > 0 {
        let head = errors.drop_last();
        let rest = without_errors(head, storage, read);
        let n = errors.len() - 1;
        lemma_without_errors(head, storage, read, e);
        lemma_of_mount(storage, read, errors[n].0);
        if all.contains(e) {
            let k = choose|k: int| 0 <= k < all.len() && all[k] == e;
            if k < rest.len() {
                assert(rest[k] == e);
                assert(rest.contains(e));
                let i = choose|i: int| 0 <= i < head.len() && head[i] == e;
                assert(errors[i] == e);
            } else {
                assert(errors[n] == e);
            }
        }
        if errors.contains(e) && !is_of_mount(storage, read, e.0) {
            let i = choose|i: int| 0 <= i < errors.len() && errors[i] == e;
            if i < n {
                assert(head[i] == e);
                assert(head.contains(e));
                let k = choose|k: int| 0 <= k < rest.len() && rest[k] == e;
                assert(all[k] == e);
            } else {
                assert(all[rest.len() as int] == e);
            }
        }
    }
}

/// Paths of a mount.
proof fn lemma_of_mount(storage: MountStorage, read: Seq<Seq<char>>, path: Seq<char>)
    ensures
        is_error_of(storage, read, path) == is_of_mount(storage, read, path),
{
    if let MountStorage::Folder { path: root } = storage {
        let r = root@;
        let slashed = r + seq!['/'];
        if path == r {
            assert(path.subrange(0, r.len() as int) =~= r);
        }
        if starts(path, r) {
            assert forall|i: int| 0 <= i < r.len() implies path[i] == r[i] by {
                assert(path.subrange(0, r.len() as int)[i] == r[i]);
            }
            if path.len() == r.len() {
                assert(path =~= r);
            } else if path[r.len() as int] == '/' {
                assert(path.subrange(0, slashed.len() as int) =~= slashed);
            }
        }
        if starts(path, slashed) {
            assert forall|i: int| 0 <= i < slashed.len() implies path[i] == slashed[i] by {
                assert(path.subrange(0, slashed.len() as int)[i] == slashed[i]);
            }
            assert(path.subrange(0, r.len() as int) =~= r);
        }
    }
}

/// Which warnings stay.
proof fn lemma_without_unbacked(ws: Seq<WarningHint>, mem: Seq<char>, w: WarningHint)
    ensures
        without_unbacked(ws, mem).contains(w) <==> ws.contains(w) && !(w
            matches WarningHint::MountUnbacked { mem: m, .. } && m@ == mem),
    decreases ws.len(),
{
    let all = without_unbacked(ws, mem);
    if ws.len() > 0 {
        let head = ws.drop_last();
        let rest = without_unbacked(head, mem);
        let n = ws.len() - 1;
        lemma_without_unbacked(head, mem, w);
        if all.contains(w) {
            let k = choose|k: int| 0 <= k < all.len() && all[k] == w;
            if k < rest.len() {
                assert(rest[k] == w);
                assert(rest.contains(w));
                let i = choose|i: int| 0 <= i < head.len() && head[i] == w;
                assert(ws[i] == w);
            } else {
                assert(ws[n] == w);
            }
        }
        if ws.contains(w) && !(w matches WarningHint::MountUnbacked { mem: m, .. } && m@ == mem) {
            let i = choose|i: int| 0 <= i < ws.len() && ws[i] == w;
            if i < n {
                assert(head[i] == w);
                assert(head.contains(w));
                let k = choose|k: int| 0 <= k < rest.len() && rest[k] == w;
                assert(all[k] == w);
            } else {
                assert(all[rest.len() as int] == w);
            }
        }
    }
}

// ---------------------------------------------------------------------
// Asking for changes
// ---------------------------------------------------------------------

/// Whether a report keeps the changes that were told.
pub open spec fn keeps(told: BackendChanges, report: ChangesReport) -> bool {
    &&& report.since == told.since
    &&& report.head == told.head
    &&& report.changes@.len() == told.changes@.len()
    &&& forall|i: int|
        0 <= i < told.changes@.len() ==> same_change(
            told.changes@[i],
            #[trigger] report.changes@[i],
        )
}

/// The changes of a mem in a folder are those that the host tells of the
/// folder, and those of a mem on a branch those of the branch; a report keeps
/// them. In a folder the id of a write is refused as a cursor: forty-eight
/// lower-case hexadecimal digits. A mem that is stored elsewhere has none.
#[verifier::rlimit(40)]
pub proof fn law_changes_are_those_told<B, H: Host>(
    engine: Engine<B, H>,
    mem: Seq<char>,
    since: Seq<char>,
    similarity: Similarity,
    r: Result<ChangesReport, EngineError>,
)
    requires
        tells_changes(engine, mem, since, similarity, r),
        engine.mount_of(mem) is Some,
        !(similarity is OutOfRange),
    ensures
        match engine.mount_of(mem)->0.mount.storage {
            MountStorage::Folder { path } => {
                &&& since.len() == 48 && (forall|i: int|
                    0 <= i < 48 ==> '0' <= #[trigger] since[i] <= '9' || 'a' <= since[i] <= 'f')
                    ==> (r matches Err(EngineError::InvalidTimestampCursor { mem: n, since: s })
                    && n@ == mem && s@ == since)
                &&& r matches Ok(report) ==> report.mem@ == mem && exists|told: BackendChanges|
                    #[trigger] folder_changes_reply(&engine.host, path@, mem, since, Ok(told))
                        && keeps(told, report)
            },
            MountStorage::GitBranch { gitdir, branch } => r matches Ok(report) ==> report.mem@
                == mem && (report.changes@.len() == 0 && report.head@ == since || exists|
                told: BackendChanges,
            | #[trigger]
                git_changes_reply(
                    &engine.host,
                    gitdir@,
                    branch@,
                    mem,
                    since,
                    similarity,
                    Some(Ok(told)),
                ) && keeps(told, report)),
            _ => r matches Ok(report) && report.mem@ == mem && report.changes@.len() == 0
                && report.since@ == since && report.head@ == since,
        },
{
    let entities = engine.store.entities@;
    match engine.mount_of(mem)->0.mount.storage {
        MountStorage::Folder { path } => {
            if since.len() == 48 && (forall|i: int|
                0 <= i < 48 ==> '0' <= #[trigger] since[i] <= '9' || 'a' <= since[i] <= 'f') {
                assert(is_write_id(since));
            }
            if let Ok(report) = r {
                let reply = choose|reply: Result<BackendChanges, BackendError>| #[trigger]
                    folder_changes_reply(&engine.host, path@, mem, since, reply)
                        && crate::drift::answers_folder_changes(mem, entities, reply, r);
                let told = reply->Ok_0;
                assert(folder_changes_reply(&engine.host, path@, mem, since, Ok(told)));
                law_report_keeps_what_was_told(mem, entities, told, report);
            }
        },
        MountStorage::GitBranch { gitdir, branch } => {
            if let Ok(report) = r {
                let reply = choose|reply: Option<Result<BackendChanges, BackendError>>| #[trigger]
                    git_changes_reply(
                        &engine.host,
                        gitdir@,
                        branch@,
                        mem,
                        since,
                        similarity,
                        reply,
                    ) && crate::drift::answers_git_changes(mem, since, entities, reply, r);
                if let Some(Ok(told)) = reply {
                    assert(git_changes_reply(
                        &engine.host,
                        gitdir@,
                        branch@,
                        mem,
                        since,
                        similarity,
                        Some(Ok(told)),
                    ));
                    law_report_keeps_what_was_told(mem, entities, told, report);
                }
            }
        },
        _ => {},
    }
}

/// A cursor whose commit the repository lost is refused by that commit.
pub proof fn law_lost_commit_is_told(
    mem: Seq<char>,
    since: Seq<char>,
    entities: Seq<Entity>,
    sha: Seq<char>,
    m: String,
    r: Result<ChangesReport, EngineError>,
)
    requires
        m@ == "COMMIT_NOT_FOUND:"@ + sha,
        crate::drift::answers_git_changes(
            mem,
            since,
            entities,
            Some(Err(BackendError::Other(m))),
            r,
        ),
    ensures
        r matches Err(EngineError::InvalidChangesCursor { mem: n, since: s }) && n@ == mem && s@
            == sha,
{
    reveal_strlit("COMMIT_NOT_FOUND:");
    let p = "COMMIT_NOT_FOUND:"@;
    assert(m@.subrange(0, p.len() as int) =~= p);
    assert(m@.skip(p.len() as int) =~= sha);
}

// ---------------------------------------------------------------------
// Write ids, names and notices
// ---------------------------------------------------------------------

/// A write id has forty-eight characters, each a digit or one of the letters
/// from a to f.
pub proof fn law_write_id_is_lower_hex(s: Seq<char>)
    ensures
        is_write_id(s) <==> s.len() == 48 && forall|i: int|
            0 <= i < s.len() ==> (48 <= (#[trigger] s[i]) as int <= 57 || 97 <= s[i] as int <= 102),
{
    if s.len() == 48 && forall|i: int|
        0 <= i < s.len() ==> (48 <= (#[trigger] s[i]) as int <= 57 || 97 <= s[i] as int <= 102) {
        assert forall|i: int| 0 <= i < s.len() implies crate::drift::is_lower_hex(
            #[trigger] s[i],
        ) by {
            assert(48 <= s[i] as int <= 57 || 97 <= s[i] as int <= 102);
        }
    }
    if is_write_id(s) {
        assert forall|i: int| 0 <= i < s.len() implies (48 <= (#[trigger] s[i]) as int <= 57 || 97
            <= s[i] as int <= 102) by {
            assert(crate::drift::is_lower_hex(s[i]));
        }
    }
}

/// An entity of the store is told of by its own title and type; of an id that
/// the store has not, neither is told.
pub proof fn law_known_entity_is_named(entities: Seq<Entity>, id: Seq<char>)
    ensures
        match known_as(entities, id) {
            (Some(t), Some(k)) => exists|j: int|
                0 <= j < entities.len() && (#[trigger] entities[j]).id.0@ == id && entities[j].title
                    == t && entities[j].entity_type == k,
            (None, None) => forall|j: int|
                0 <= j < entities.len() ==> (#[trigger] entities[j]).id.0@ != id,
            _ => false,
        },
{
    lemma_entity_index(entities, id, 0);
}

/// A notice names the mem and both heads, and holds what changed since the
/// earlier one; where that could not be told it holds nothing.
pub proof fn law_notice_tells_the_move<B, H: Host>(
    engine: Engine<B, H>,
    mem: Seq<char>,
    from: Seq<char>,
    to: Seq<char>,
    notice: MemChangedNotice,
)
    requires
        notices(engine, mem, from, to, notice),
    ensures
        notice.mem@ == mem,
        notice.from_head@ == from,
        notice.to_head@ == to,
        (exists|report: ChangesReport| #[trigger]
            tells_changes(
                engine,
                mem,
                from,
                Similarity::Default,
                Ok::<ChangesReport, EngineError>(report),
            ) && notice.changes@ == report.changes@) || (notice.changes@.len() == 0 && exists|
            e: EngineError,
        | #[trigger]
            tells_changes(
                engine,
                mem,
                from,
                Similarity::Default,
                Err::<ChangesReport, EngineError>(e),
            )),
{
}

/// A reload that went through tells the head at which the mem was known and the
/// one that it was brought to, which is then the one known. Where the storage
/// tells of no head the two are the same.
pub proof fn law_reload_tells_both_heads<B, H>(
    m: MountedBackend<B>,
    mid: Engine<B, H>,
    mem: Seq<char>,
    head: Option<Seq<char>>,
    got: Result<MemReload, EngineError>,
    post: Engine<B, H>,
    r: Result<ReloadReport, EngineError>,
)
    requires
        reported(m, mid, mem, head, got, post, r),
    ensures
        got is Ok <==> r is Ok,
        r matches Ok(report) ==> {
            &&& m.last_known_head matches Some(h) ==> report.head_before@ == h@
            &&& m.last_known_head is None ==> report.head_before@.len() == 0
            &&& head matches Some(h) ==> report.head_after@ == h && (mid.mount_at(mem)
                matches Some(at) && post.mounts@.len() == mid.mounts@.len() && opt_text(
                post.mounts@[at].last_known_head,
            ) == Some(h) && post.mounts@[at].mount == mid.mounts@[at].mount && forall|i: int|
                0 <= i < mid.mounts@.len() && i != at ==> #[trigger] post.mounts@[i]
                    == mid.mounts@[i])
            &&& head is None ==> report.head_after@ == report.head_before@
            &&& report.added == got->Ok_0.added && report.changed == got->Ok_0.changed
            &&& post.store == mid.store
        },
        r is Err ==> post == mid,
{
}

} // verus!
