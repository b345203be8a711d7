//! Replaying a commit that the engine did not author into the store: all of
//! its changes or none.

use crate::backend::MemBackend;
use crate::boot::with_entities;
use crate::drift::{head_moves, head_or_empty, sets_head};
use crate::engine::{says_unmounted, schema_of, Engine};
use crate::entity::{
    entity_index, entity_of, file_path_to_id, ids_unique, joined_id, law_with_entity,
    law_without_entity, lemma_entity_index, lemma_put_entity, with_entity, without_entity,
    without_md, Entity,
};
use crate::error::{EngineError, ParseError};
use crate::events::VaultChangedEvent;
use crate::host::{parse_reply, Host, LoadResult};
use crate::ops::{CommitEnvelope, EntityChange, SourceEntry, SourceReadError};
use crate::schema::Schema;
use crate::sort::views;
use crate::text::{same, texts};
use std::sync::Arc;
use vstd::prelude::*;

verus! {

/// The files that changes write, by path and content.
pub open spec fn written_files(changes: Seq<EntityChange>) -> Seq<(Seq<char>, Seq<char>)>
    decreases changes.len(),
{
    if changes.len() == 0 {
        Seq::empty()
    } else {
        let rest = written_files(changes.drop_last());
        match changes.last() {
            EntityChange::Added { path, content } => rest.push((path@, content@)),
            EntityChange::Modified { path, content } => rest.push((path@, content@)),
            EntityChange::Deleted { path } => rest,
            EntityChange::Renamed { from, to, content } => rest.push((to@, content@)),
        }
    }
}

/// The paths that changes take away.
pub open spec fn removed_paths(changes: Seq<EntityChange>) -> Seq<Seq<char>>
    decreases changes.len(),
{
    if changes.len() == 0 {
        Seq::empty()
    } else {
        let rest = removed_paths(changes.drop_last());
        match changes.last() {
            EntityChange::Deleted { path } => rest.push(path@),
            EntityChange::Renamed { from, to, content } => rest.push(from@),
            _ => rest,
        }
    }
}

/// A store without the entities of paths of a mem.
pub open spec fn without_paths(s: Seq<Entity>, mem: Seq<char>, paths: Seq<Seq<char>>) -> Seq<Entity>
    decreases paths.len(),
{
    if paths.len() == 0 {
        s
    } else {
        without_entity(
            without_paths(s, mem, paths.drop_last()),
            joined_id(mem, without_md(paths.last())),
        )
    }
}

/// An entity under its id as its file.
pub open spec fn filed(e: Entity) -> Entity {
    Entity { file_path: e.id.0, ..e }
}

/// Entities under their ids as their files.
pub open spec fn all_filed(es: Seq<Entity>) -> Seq<Entity> {
    es.map_values(|e: Entity| filed(e))
}

/// The store after a commit: what it takes away goes first, then what it
/// writes is put in.
pub open spec fn store_after(
    s: Seq<Entity>,
    mem: Seq<char>,
    changes: Seq<EntityChange>,
    parsed: Seq<Entity>,
) -> Seq<Entity> {
    with_entities(without_paths(s, mem, removed_paths(changes)), all_filed(parsed))
}

/// Whether `post` is `pre` after a commit whose files were parsed. Where one
/// does not parse, nothing changes.
pub open spec fn replays<B, H>(
    pre: Engine<B, H>,
    at: int,
    envelope: CommitEnvelope,
    load: LoadResult,
    post: Engine<B, H>,
    r: Result<(), EngineError>,
) -> bool {
    if load.errors@.len() > 0 {
        post == pre && (r matches Err(EngineError::Parse(p)) && p.message@
            == "apply_external_commit: failed to parse '"@ + load.errors@[0].0@ + "' in mem '"@
            + envelope.mem@ + "': "@ + load.errors@[0].1@)
    } else {
        let known = head_or_empty(pre.mounts@[at].last_known_head);
        let moved = Engine { store: pre.store, ..post };
        r is Ok && post.store.entities@ == store_after(
            pre.store.entities@,
            envelope.mem@,
            envelope.changes@,
            load.entities@,
        ) && if known == envelope.sha@ {
            sets_head(pre, moved, at, envelope.sha@)
        } else {
            head_moves(pre, moved, at, envelope.mem@, known, envelope.sha@)
        }
    }
}

/// Whether applying a commit took an engine from `pre` to `post`.
pub open spec fn applies<B, H: Host>(
    pre: Engine<B, H>,
    envelope: CommitEnvelope,
    post: Engine<B, H>,
    r: Result<(), EngineError>,
) -> bool {
    match pre.mount_at(envelope.mem@) {
        None => post == pre && (r matches Err(e) && says_unmounted(envelope.mem@, e)),
        Some(at) => match schema_of(pre.schemas@, envelope.mem@) {
            None => post == pre && (r matches Err(e) && says_unmounted(envelope.mem@, e)),
            Some(schema) => applies_under(pre, at, schema, envelope, post, r),
        },
    }
}

/// Whether applying a commit under a schema took an engine from `pre` to
/// `post`.
pub open spec fn applies_under<B, H: Host>(
    pre: Engine<B, H>,
    at: int,
    schema: Arc<Schema>,
    envelope: CommitEnvelope,
    post: Engine<B, H>,
    r: Result<(), EngineError>,
) -> bool {
    exists|load: LoadResult| #[trigger]
        parse_reply(
            &pre.host,
            written_files(envelope.changes@),
            Seq::empty(),
            envelope.mem@,
            schema,
            Seq::empty(),
            load,
        ) && replays(pre, at, envelope, load, post, r)
}

/// Part the changes of a commit into the files that it writes and the paths
/// that it takes away.
pub fn stage_changes(changes: &Vec<EntityChange>) -> (r: (Vec<SourceEntry>, Vec<String>))
    ensures
        views(r.0@) == written_files(changes@),
        texts(r.1@) == removed_paths(changes@),
{
    let mut writes: Vec<SourceEntry> = Vec::new();
    let mut removals: Vec<String> = Vec::new();
    assert(views(writes@) =~= written_files(changes@.take(0)));
    assert(texts(removals@) =~= removed_paths(changes@.take(0)));
    for i in 0..changes.len()
        invariant
            views(writes@) == written_files(changes@.take(i as int)),
            texts(removals@) == removed_paths(changes@.take(i as int)),
    {
        let ghost written = views(writes@);
        let ghost removed = texts(removals@);
        assert(changes@.take(i + 1).drop_last() =~= changes@.take(i as int));
        match &changes[i] {
            EntityChange::Added { path, content } => {
                let e = SourceEntry { relative_path: path.clone(), content: content.clone() };
                writes.push(e);
                assert(views(writes@) =~= written.push(e@));
            },
            EntityChange::Modified { path, content } => {
                let e = SourceEntry { relative_path: path.clone(), content: content.clone() };
                writes.push(e);
                assert(views(writes@) =~= written.push(e@));
            },
            EntityChange::Deleted { path } => {
                removals.push(path.clone());
                assert(texts(removals@) =~= removed.push(path@));
            },
            EntityChange::Renamed { from, to, content } => {
                removals.push(from.clone());
                assert(texts(removals@) =~= removed.push(from@));
                let e = SourceEntry { relative_path: to.clone(), content: content.clone() };
                writes.push(e);
                assert(views(writes@) =~= written.push(e@));
            },
        }
    }
    assert(changes@.take(changes@.len() as int) =~= changes@);
    (writes, removals)
}

/// Entities under their ids as their files.
fn file_all(entities: Vec<Entity>) -> (r: Vec<Entity>)
    ensures
        r@ == all_filed(entities@),
{
    let ghost all = entities@;
    let mut rest = entities;
    let ghost mut done: Seq<Entity> = Seq::empty();
    let mut out: Vec<Entity> = Vec::new();
    assert(done + rest@ =~= all);
    assert(out@ =~= all_filed(done));
    while rest.len() > 0
        invariant
            done + rest@ == all,
            out@ == all_filed(done),
        decreases rest@.len(),
    {
        let mut e = rest.remove(0);
        let ghost given = e;
        e.file_path = e.id.0.clone();
        assert(e == filed(given));
        out.push(e);
        proof {
            let next = done.push(given);
            assert(next + rest@ =~= all);
            assert(out@ =~= all_filed(next));
            done = next;
        }
    }
    assert(done =~= all);
    out
}

impl<B: MemBackend, H: Host> Engine<B, H> {
    /// Replay a commit into the store. A file that does not parse refuses the
    /// whole commit before the store is touched. A commit without changes
    /// still moves the head. The move is an event.
    pub fn apply_external_commit(&mut self, envelope: &CommitEnvelope) -> (r: Result<
        (),
        EngineError,
    >)
        ensures
            applies(*old(self), *envelope, *final(self), r),
    {
        let ghost pre = *self;
        let mem = &envelope.mem;
        let at = match self.position(mem) {
            Some(i) => i,
            None => {
                return Err(EngineError::UnknownMem(mem.clone()));
            },
        };
        let schema = match self.schema_for(mem) {
            Some(s) => s.clone(),
            None => {
                return Err(EngineError::UnknownMem(mem.clone()));
            },
        };
        let (writes, removals) = stage_changes(&envelope.changes);
        let none: Vec<SourceReadError> = Vec::new();
        assert(views(none@) =~= Seq::empty());
        let silent: Vec<String> = Vec::new();
        assert(texts(silent@) =~= Seq::empty());
        let load = self.host.parse_entries(&writes, &none, mem, &schema, &silent);
        let ghost told = load;
        assert(parse_reply(
            &pre.host,
            written_files(envelope.changes@),
            Seq::empty(),
            mem@,
            schema,
            Seq::empty(),
            told,
        ));
        if load.errors.len() > 0 {
            let message = "apply_external_commit: failed to parse '".to_owned().concat(
                &load.errors[0].0,
            ).concat("' in mem '").concat(mem).concat("': ").concat(&load.errors[0].1);
            let r = Err(EngineError::Parse(ParseError { message }));
            assert(replays(pre, at as int, *envelope, told, *self, r));
            assert(applies_under(pre, at as int, schema, *envelope, *self, r));
            return r;
        }
        let ghost rv = texts(removals@);
        assert(rv.take(0) =~= Seq::empty());
        for i in 0..removals.len()
            invariant
                rv == texts(removals@),
                at < pre.mounts@.len(),
                mem@ == envelope.mem@,
                *self == (Engine { store: self.store, ..pre }),
                self.store.entities@ == without_paths(
                    pre.store.entities@,
                    mem@,
                    rv.take(i as int),
                ),
        {
            assert(rv.take(i + 1).drop_last() =~= rv.take(i as int));
            assert(rv[i as int] == removals@[i as int]@);
            let id = file_path_to_id(&removals[i], mem);
            self.store.remove(&id);
        }
        assert(rv.take(rv.len() as int) =~= rv);
        let LoadResult { entities, .. } = load;
        crate::boot::upsert_all(&mut self.store, file_all(entities));
        let ghost stored = *self;
        let previous = match &self.mounts[at].last_known_head {
            Some(h) => h.clone(),
            None => String::new(),
        };
        assert(previous@ =~= head_or_empty(pre.mounts@[at as int].last_known_head));
        self.mounts[at].last_known_head = Some(envelope.sha.clone());
        proof {
            let moved = Engine { store: pre.store, ..*self };
            assert(sets_head(pre, moved, at as int, envelope.sha@));
        }
        let ghost mid = *self;
        if !same(&previous, &envelope.sha) {
            self.pending_events.push(
                VaultChangedEvent {
                    vault: mem.clone(),
                    head: envelope.sha.clone(),
                    previous,
                    n_commits: 1,
                },
            );
            proof {
                assert(self.pending_events@.drop_last() =~= pre.pending_events@);
                let moved = Engine { store: pre.store, ..*self };
                assert(Engine { pending_events: pre.pending_events, ..moved } == Engine {
                    store: pre.store,
                    ..mid
                });
            }
        }
        assert(replays(pre, at as int, *envelope, told, *self, Ok(())));
        assert(applies_under(pre, at as int, schema, *envelope, *self, Ok(())));
        Ok(())
    }
}

/// Putting entities in keeps the ids apart, and every one of them is found.
pub proof fn lemma_with_entities(s: Seq<Entity>, more: Seq<Entity>)
    requires
        ids_unique(s),
    ensures
        ids_unique(with_entities(s, more)),
        forall|i: int|
            0 <= i < more.len() ==> entity_of(
                with_entities(s, more),
                (#[trigger] more[i]).id.0@,
            ) is Some,
    decreases more.len(),
{
    if more.len() > 0 {
        let head = more.drop_last();
        let before = with_entities(s, head);
        let e = more.last();
        lemma_with_entities(s, head);
        law_with_entity(before, e);
        let after = with_entity(before, e);
        assert forall|i: int| 0 <= i < more.len() implies entity_of(
            after,
            (#[trigger] more[i]).id.0@,
        ) is Some by {
            if i < head.len() {
                assert(head[i] == more[i]);
                let id = more[i].id.0@;
                lemma_entity_index(before, id, 0);
                lemma_entity_index(before, e.id.0@, 0);
                lemma_entity_index(after, id, 0);
                match entity_index(before, id, 0) {
                    Some(k) => {
                        assert(after[k].id.0@ == id);
                    },
                    None => {},
                }
            }
        }
    }
}

/// Taking paths out keeps the ids apart.
proof fn lemma_without_paths(s: Seq<Entity>, mem: Seq<char>, paths: Seq<Seq<char>>)
    requires
        ids_unique(s),
    ensures
        ids_unique(without_paths(s, mem, paths)),
    decreases paths.len(),
{
    if paths.len() > 0 {
        lemma_without_paths(s, mem, paths.drop_last());
        law_without_entity(
            without_paths(s, mem, paths.drop_last()),
            joined_id(mem, without_md(paths.last())),
        );
    }
}

/// A commit that is refused changes nothing: not the store, not the head, and
/// nobody is told of it.
pub proof fn law_refused_commit_changes_nothing<B, H: Host>(
    pre: Engine<B, H>,
    envelope: CommitEnvelope,
    post: Engine<B, H>,
    e: EngineError,
)
    requires
        applies(pre, envelope, post, Err::<(), EngineError>(e)),
    ensures
        post == pre,
{
}

/// Of entities whose ids are apart, every one that is put in is found as it
/// is.
pub proof fn lemma_put_entities(s: Seq<Entity>, more: Seq<Entity>)
    requires
        ids_unique(more),
    ensures
        forall|i: int|
            0 <= i < more.len() ==> entity_of(
                with_entities(s, more),
                (#[trigger] more[i]).id.0@,
            ) == Some(more[i]),
    decreases more.len(),
{
    if more.len() > 0 {
        let head = more.drop_last();
        let before = with_entities(s, head);
        let n = more.len() - 1;
        assert forall|i: int, j: int|
            #![trigger head[i], head[j]]
            0 <= i < j < head.len() implies head[i].id.0@ != head[j].id.0@ by {
            assert(head[i] == more[i] && head[j] == more[j]);
        }
        lemma_put_entities(s, head);
        assert forall|i: int| 0 <= i < more.len() implies entity_of(
            with_entities(s, more),
            (#[trigger] more[i]).id.0@,
        ) == Some(more[i]) by {
            lemma_put_entity(before, more[n], more[i].id.0@);
            if i < n {
                assert(head[i] == more[i]);
                assert(more[i].id.0@ != more[n].id.0@);
            }
        }
    }
}

/// After a commit the ids are still apart, and every entity that it wrote is
/// found in the store; where it wrote each id once, it is found just as it was
/// written, filed under its id.
pub proof fn law_commit_lands(
    s: Seq<Entity>,
    mem: Seq<char>,
    changes: Seq<EntityChange>,
    parsed: Seq<Entity>,
)
    requires
        ids_unique(s),
    ensures
        ids_unique(store_after(s, mem, changes, parsed)),
        forall|i: int|
            0 <= i < parsed.len() ==> entity_of(
                store_after(s, mem, changes, parsed),
                (#[trigger] parsed[i]).id.0@,
            ) is Some,
        ids_unique(parsed) ==> forall|i: int|
            0 <= i < parsed.len() ==> entity_of(
                store_after(s, mem, changes, parsed),
                (#[trigger] parsed[i]).id.0@,
            ) == Some(filed(parsed[i])),
{
    lemma_without_paths(s, mem, removed_paths(changes));
    let base = without_paths(s, mem, removed_paths(changes));
    lemma_with_entities(base, all_filed(parsed));
    assert forall|i: int| 0 <= i < parsed.len() implies entity_of(
        store_after(s, mem, changes, parsed),
        (#[trigger] parsed[i]).id.0@,
    ) is Some by {
        assert(all_filed(parsed)[i].id == parsed[i].id);
    }
    if ids_unique(parsed) {
        let written = all_filed(parsed);
        assert forall|i: int, j: int|
            #![trigger written[i], written[j]]
            0 <= i < j < written.len() implies written[i].id.0@ != written[j].id.0@ by {
            assert(parsed[i].id.0@ != parsed[j].id.0@);
        }
        lemma_put_entities(base, written);
        assert forall|i: int| 0 <= i < parsed.len() implies entity_of(
            store_after(s, mem, changes, parsed),
            (#[trigger] parsed[i]).id.0@,
        ) == Some(filed(parsed[i])) by {
            assert(written[i] == filed(parsed[i]));
        }
    }
}

/// A path that a commit takes away and does not write again is gone.
pub proof fn law_removed_entity_is_gone(
    s: Seq<Entity>,
    mem: Seq<char>,
    changes: Seq<EntityChange>,
    parsed: Seq<Entity>,
    at: int,
)
    requires
        ids_unique(s),
        0 <= at < removed_paths(changes).len(),
        forall|i: int|
            0 <= i < parsed.len() ==> (#[trigger] parsed[i]).id.0@ != joined_id(
                mem,
                without_md(removed_paths(changes)[at]),
            ),
    ensures
        entity_of(
            store_after(s, mem, changes, parsed),
            joined_id(mem, without_md(removed_paths(changes)[at])),
        ) is None,
{
    let paths = removed_paths(changes);
    let id = joined_id(mem, without_md(paths[at]));
    lemma_path_gone(s, mem, paths, at);
    assert forall|i: int| 0 <= i < all_filed(parsed).len() implies (#[trigger] all_filed(
        parsed,
    )[i]).id.0@ != id by {
        assert(all_filed(parsed)[i].id == parsed[i].id);
    }
    lemma_stays_gone(without_paths(s, mem, paths), all_filed(parsed), id);
}

/// A path that is taken out is gone, whatever is taken out behind it.
proof fn lemma_path_gone(s: Seq<Entity>, mem: Seq<char>, paths: Seq<Seq<char>>, at: int)
    requires
        ids_unique(s),
        0 <= at < paths.len(),
    ensures
        entity_of(without_paths(s, mem, paths), joined_id(mem, without_md(paths[at]))) is None,
    decreases paths.len(),
{
    let head = paths.drop_last();
    let before = without_paths(s, mem, head);
    let last = joined_id(mem, without_md(paths.last()));
    let id = joined_id(mem, without_md(paths[at]));
    lemma_without_paths(s, mem, head);
    law_without_entity(before, last);
    if at < head.len() {
        assert(head[at] == paths[at]);
        lemma_path_gone(s, mem, head, at);
        let after = without_entity(before, last);
        lemma_entity_index(before, id, 0);
        lemma_entity_index(before, last, 0);
        lemma_entity_index(after, id, 0);
        match entity_index(after, id, 0) {
            Some(k) => {
                match entity_index(before, last, 0) {
                    Some(j) => {
                        if k < j {
                            assert(after[k] == before[k]);
                        } else {
                            assert(after[k] == before[k + 1]);
                        }
                    },
                    None => {},
                }
            },
            None => {},
        }
    }
}

/// An id that is not in a store and not put in is not in it afterwards.
proof fn lemma_stays_gone(s: Seq<Entity>, more: Seq<Entity>, id: Seq<char>)
    requires
        entity_of(s, id) is None,
        forall|i: int| 0 <= i < more.len() ==> (#[trigger] more[i]).id.0@ != id,
    ensures
        entity_of(with_entities(s, more), id) is None,
    decreases more.len(),
{
    if more.len() > 0 {
        let head = more.drop_last();
        assert forall|i: int| 0 <= i < head.len() implies (#[trigger] head[i]).id.0@ != id by {
            assert(head[i] == more[i]);
        }
        lemma_stays_gone(s, head, id);
        let before = with_entities(s, head);
        let e = more.last();
        assert(e == more[more.len() - 1]);
        let after = with_entity(before, e);
        lemma_entity_index(before, id, 0);
        lemma_entity_index(before, e.id.0@, 0);
        lemma_entity_index(after, id, 0);
    }
}

} // verus!
