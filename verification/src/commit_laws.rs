//! What holds of ids, of the store and of commits that are applied, over the
//! changes that a commit tells of.

use crate::apply_commit::{
    all_filed, applies, law_commit_lands, law_removed_entity_is_gone, removed_paths, replays,
    store_after, without_paths, written_files,
};
use crate::boot::with_entities;
use crate::engine::{lemma_mount_index, schema_of, Engine};
use crate::entity::{
    entity_index, entity_of, id_mem, id_path, ids_unique, joined_id, lemma_entity_index,
    lemma_put_entity, meta_value, section_body, with_entity, without_entity, without_md, Entity,
    MetadataValue,
};
use crate::error::EngineError;
use crate::host::{parse_reply, Host, LoadResult};
use crate::ops::{CommitEnvelope, EntityChange};
use crate::text::{ends, find, lemma_find, occurs_at};
use vstd::prelude::*;

verus! {

// ---------------------------------------------------------------------
// Ids
// ---------------------------------------------------------------------

/// The id of a file is the mem, two dashes and the path without its ending.
/// Mem and path are read back from it, where the mem's name neither holds two
/// dashes nor ends with one.
pub proof fn law_id_names_mem_and_path(mem: Seq<char>, path: Seq<char>)
    requires
        forall|i: int| 0 <= i < mem.len() - 1 ==> !(#[trigger] mem[i] == '-' && mem[i + 1] == '-'),
        mem.len() > 0 ==> mem.last() != '-',
    ensures
        joined_id(mem, path) == mem + seq!['-', '-'] + path,
        id_mem(joined_id(mem, path)) == mem,
        id_path(joined_id(mem, path)) == path,
{
    reveal_strlit("--");
    let id = joined_id(mem, path);
    let n = mem.len() as int;
    assert("--"@ =~= seq!['-', '-']);
    assert(id.subrange(n, n + 2) =~= "--"@);
    lemma_find(id, "--"@, 0);
    assert(occurs_at(id, "--"@, n));
    match find(id, "--"@, 0) {
        Some(i) => {
            if i < n {
                assert(id.subrange(i, i + 2)[0] == '-');
                assert(id.subrange(i, i + 2)[1] == '-');
                assert(id[i] == mem[i]);
                if i + 1 < n {
                    assert(id[i + 1] == mem[i + 1]);
                    assert(mem[i] == '-' && mem[i + 1] == '-');
                }
            }
            assert(i == n);
            assert(id.take(n) =~= mem);
            assert(id.skip(n + 2) =~= path);
        },
        None => {},
    }
}

/// The ending of an entity file is cut from its path; another path stays.
pub proof fn law_ending_is_cut(stem: Seq<char>, path: Seq<char>)
    ensures
        without_md(stem + seq!['.', 'm', 'd']) == stem,
        (path.len() < 3 || path.subrange(path.len() - 3, path.len() as int) != seq!['.', 'm', 'd'])
            ==> without_md(path) == path,
{
    reveal_strlit(".md");
    assert(".md"@ =~= seq!['.', 'm', 'd']);
    let s = stem + seq!['.', 'm', 'd'];
    assert(s.subrange(s.len() - 3, s.len() as int) =~= ".md"@);
    assert(s.take(s.len() - 3) =~= stem);
}

/// An id that names no mem is its own mem and its own path.
pub proof fn law_bare_id_names_itself(id: Seq<char>)
    requires
        forall|i: int| 0 <= i < id.len() - 1 ==> !(#[trigger] id[i] == '-' && id[i + 1] == '-'),
    ensures
        id_mem(id) == id,
        id_path(id) == id,
{
    reveal_strlit("--");
    lemma_find(id, "--"@, 0);
    if let Some(i) = find(id, "--"@, 0) {
        assert(id.subrange(i, i + 2)[0] == '-');
        assert(id.subrange(i, i + 2)[1] == '-');
        assert(id[i] == '-' && id[i + 1] == '-');
    }
}

// ---------------------------------------------------------------------
// Metadata and sections
// ---------------------------------------------------------------------

/// A metadata value is found where the key first stands, and only there.
pub proof fn law_metadata_is_found(
    meta: Seq<(String, MetadataValue)>,
    key: Seq<char>,
    k: int,
    i: int,
)
    requires
        0 <= i <= k <= meta.len(),
        forall|j: int| i <= j < k ==> (#[trigger] meta[j]).0@ != key,
        k < meta.len() ==> meta[k].0@ == key,
    ensures
        meta_value(meta, key, i) == (if k < meta.len() {
            Some(meta[k].1)
        } else {
            None
        }),
    decreases k - i,
{
    if i < k {
        law_metadata_is_found(meta, key, k, i + 1);
    }
}

/// A section is found where its key first stands, and only there.
pub proof fn law_section_is_found(sections: Seq<(String, String)>, key: Seq<char>, k: int, i: int)
    requires
        0 <= i <= k <= sections.len(),
        forall|j: int| i <= j < k ==> (#[trigger] sections[j]).0@ != key,
        k < sections.len() ==> sections[k].0@ == key,
    ensures
        section_body(sections, key, i) == (if k < sections.len() {
            Some(sections[k].1@)
        } else {
            None
        }),
    decreases k - i,
{
    if i < k {
        law_section_is_found(sections, key, k, i + 1);
    }
}

// ---------------------------------------------------------------------
// The store
// ---------------------------------------------------------------------

/// Taking an entity out of a store takes that one alone: what is found under
/// another id stays.
#[verifier::rlimit(40)]
pub proof fn law_removal_leaves_the_others(s: Seq<Entity>, id: Seq<char>, other: Seq<char>)
    requires
        ids_unique(s),
        other != id,
    ensures
        entity_of(without_entity(s, id), other) == entity_of(s, other),
        entity_of(without_entity(s, id), id) is None,
        without_entity(s, id).len() == s.len() - (if entity_of(s, id) is Some {
            1int
        } else {
            0
        }),
{
    let t = without_entity(s, id);
    lemma_entity_index(s, id, 0);
    lemma_entity_index(s, other, 0);
    lemma_entity_index(t, id, 0);
    lemma_entity_index(t, other, 0);
    if let Some(at) = entity_index(s, id, 0) {
        match entity_index(s, other, 0) {
            Some(k) => {
                let j = if k < at {
                    k
                } else {
                    k - 1
                };
                assert(t[j] == s[k]);
                assert(entity_index(t, other, 0) is Some);
                let f = entity_index(t, other, 0)->0;
                let g = if f < at {
                    f
                } else {
                    f + 1
                };
                assert(t[f] == s[g]);
                assert(s[g].id.0@ == s[k].id.0@);
                assert(g == k);
            },
            None => {
                if let Some(f) = entity_index(t, other, 0) {
                    let g = if f < at {
                        f
                    } else {
                        f + 1
                    };
                    assert(t[f] == s[g]);
                }
            },
        }
        if let Some(f) = entity_index(t, id, 0) {
            let g = if f < at {
                f
            } else {
                f + 1
            };
            assert(t[f] == s[g]);
            assert(s[g].id.0@ == s[at].id.0@);
        }
    }
}

/// An entity that is put in is found under its id, in the place of the one
/// that had it; what is found under another id stays.
pub proof fn law_upsert_leaves_the_others(s: Seq<Entity>, e: Entity, other: Seq<char>)
    requires
        other != e.id.0@,
    ensures
        entity_of(with_entity(s, e), e.id.0@) == Some(e),
        entity_of(with_entity(s, e), other) == entity_of(s, other),
        with_entity(s, e).len() == s.len() + (if entity_of(s, e.id.0@) is Some {
            0int
        } else {
            1
        }),
{
    lemma_put_entity(s, e, e.id.0@);
    lemma_put_entity(s, e, other);
    lemma_entity_index(s, e.id.0@, 0);
}

// ---------------------------------------------------------------------
// Commits
// ---------------------------------------------------------------------

/// Whether a change writes a file.
pub open spec fn writes(change: EntityChange, path: Seq<char>, content: Seq<char>) -> bool {
    match change {
        EntityChange::Added { path: p, content: c } => p@ == path && c@ == content,
        EntityChange::Modified { path: p, content: c } => p@ == path && c@ == content,
        EntityChange::Renamed { from, to, content: c } => to@ == path && c@ == content,
        EntityChange::Deleted { path: p } => false,
    }
}

/// Whether a change takes a path away.
pub open spec fn takes(change: EntityChange, path: Seq<char>) -> bool {
    match change {
        EntityChange::Deleted { path: p } => p@ == path,
        EntityChange::Renamed { from, to, content } => from@ == path,
        EntityChange::Added { .. } => false,
        EntityChange::Modified { .. } => false,
    }
}

/// The files that a commit writes are those of its additions, modifications
/// and renames; the paths that it takes away are those of its deletions and
/// the old ones of its renames.
pub proof fn law_commit_is_parted(changes: Seq<EntityChange>, path: Seq<char>, content: Seq<char>)
    ensures
        written_files(changes).contains((path, content)) <==> exists|i: int|
            0 <= i < changes.len() && writes(#[trigger] changes[i], path, content),
        removed_paths(changes).contains(path) <==> exists|i: int|
            0 <= i < changes.len() && takes(#[trigger] changes[i], path),
    decreases changes.len(),
{
    let w = written_files(changes);
    let r = removed_paths(changes);
    if changes.len() > 0 {
        let head = changes.drop_last();
        let n = changes.len() - 1;
        let hw = written_files(head);
        let hr = removed_paths(head);
        law_commit_is_parted(head, path, content);
        if w.contains((path, content)) {
            let k = choose|k: int| 0 <= k < w.len() && w[k] == (path, content);
            if k < hw.len() {
                assert(hw[k] == (path, content));
                assert(hw.contains((path, content)));
                let i = choose|i: int|
                    0 <= i < head.len() && writes(#[trigger] head[i], path, content);
                assert(writes(changes[i], path, content));
            } else {
                assert(writes(changes[n], path, content));
            }
        }
        if exists|i: int| 0 <= i < changes.len() && writes(#[trigger] changes[i], path, content) {
            let i = choose|i: int|
                0 <= i < changes.len() && writes(#[trigger] changes[i], path, content);
            if i < n {
                assert(writes(head[i], path, content));
                let k = choose|k: int| 0 <= k < hw.len() && hw[k] == (path, content);
                assert(w[k] == (path, content));
            } else {
                assert(w[hw.len() as int] == (path, content));
            }
        }
        if r.contains(path) {
            let k = choose|k: int| 0 <= k < r.len() && r[k] == path;
            if k < hr.len() {
                assert(hr[k] == path);
                assert(hr.contains(path));
                let i = choose|i: int| 0 <= i < head.len() && takes(#[trigger] head[i], path);
                assert(takes(changes[i], path));
            } else {
                assert(takes(changes[n], path));
            }
        }
        if exists|i: int| 0 <= i < changes.len() && takes(#[trigger] changes[i], path) {
            let i = choose|i: int| 0 <= i < changes.len() && takes(#[trigger] changes[i], path);
            if i < n {
                assert(takes(head[i], path));
                let k = choose|k: int| 0 <= k < hr.len() && hr[k] == path;
                assert(r[k] == path);
            } else {
                assert(r[hr.len() as int] == path);
            }
        }
    }
}

/// What a commit deletes or renames away, and does not write again, is gone
/// from the store.
pub proof fn law_deleted_file_is_gone(
    s: Seq<Entity>,
    mem: Seq<char>,
    changes: Seq<EntityChange>,
    parsed: Seq<Entity>,
    i: int,
    path: Seq<char>,
)
    requires
        ids_unique(s),
        0 <= i < changes.len(),
        takes(changes[i], path),
        forall|k: int|
            0 <= k < parsed.len() ==> (#[trigger] parsed[k]).id.0@ != joined_id(
                mem,
                without_md(path),
            ),
    ensures
        entity_of(store_after(s, mem, changes, parsed), joined_id(mem, without_md(path))) is None,
{
    law_commit_is_parted(changes, path, Seq::empty());
    let paths = removed_paths(changes);
    assert(paths.contains(path));
    let at = choose|at: int| 0 <= at < paths.len() && paths[at] == path;
    law_removed_entity_is_gone(s, mem, changes, parsed, at);
}

/// Taking paths out leaves the other ids.
proof fn lemma_others_stay(s: Seq<Entity>, mem: Seq<char>, paths: Seq<Seq<char>>, id: Seq<char>)
    requires
        ids_unique(s),
        forall|k: int|
            0 <= k < paths.len() ==> joined_id(mem, without_md(#[trigger] paths[k])) != id,
    ensures
        ids_unique(without_paths(s, mem, paths)),
        entity_of(without_paths(s, mem, paths), id) == entity_of(s, id),
    decreases paths.len(),
{
    if paths.len() > 0 {
        let head = paths.drop_last();
        assert forall|k: int| 0 <= k < head.len() implies joined_id(
            mem,
            without_md(#[trigger] head[k]),
        ) != id by {
            assert(head[k] == paths[k]);
        }
        lemma_others_stay(s, mem, head, id);
        let before = without_paths(s, mem, head);
        let gone = joined_id(mem, without_md(paths.last()));
        assert(paths.last() == paths[paths.len() - 1]);
        law_removal_leaves_the_others(before, gone, id);
        crate::entity::law_without_entity(before, gone);
    }
}

/// Putting entities in leaves the other ids.
proof fn lemma_others_kept(s: Seq<Entity>, more: Seq<Entity>, id: Seq<char>)
    requires
        forall|k: int| 0 <= k < more.len() ==> (#[trigger] more[k]).id.0@ != id,
    ensures
        entity_of(with_entities(s, more), id) == entity_of(s, id),
    decreases more.len(),
{
    if more.len() > 0 {
        let head = more.drop_last();
        assert forall|k: int| 0 <= k < head.len() implies (#[trigger] head[k]).id.0@ != id by {
            assert(head[k] == more[k]);
        }
        lemma_others_kept(s, head, id);
        assert(more.last() == more[more.len() - 1]);
        lemma_put_entity(with_entities(s, head), more.last(), id);
    }
}

/// An entity that a commit neither takes away nor writes stays as it is.
pub proof fn law_commit_leaves_the_others(
    s: Seq<Entity>,
    mem: Seq<char>,
    changes: Seq<EntityChange>,
    parsed: Seq<Entity>,
    id: Seq<char>,
)
    requires
        ids_unique(s),
        forall|i: int, path: Seq<char>|
            0 <= i < changes.len() && #[trigger] takes(changes[i], path) ==> joined_id(
                mem,
                without_md(path),
            ) != id,
        forall|k: int| 0 <= k < parsed.len() ==> (#[trigger] parsed[k]).id.0@ != id,
    ensures
        entity_of(store_after(s, mem, changes, parsed), id) == entity_of(s, id),
{
    let paths = removed_paths(changes);
    assert forall|k: int| 0 <= k < paths.len() implies joined_id(
        mem,
        without_md(#[trigger] paths[k]),
    ) != id by {
        law_commit_is_parted(changes, paths[k], Seq::empty());
        assert(paths.contains(paths[k]));
        let i = choose|i: int| 0 <= i < changes.len() && takes(#[trigger] changes[i], paths[k]);
        assert(takes(changes[i], paths[k]));
    }
    lemma_others_stay(s, mem, paths, id);
    let written = all_filed(parsed);
    assert forall|k: int| 0 <= k < written.len() implies (#[trigger] written[k]).id.0@ != id by {
        assert(written[k].id == parsed[k].id);
    }
    lemma_others_kept(without_paths(s, mem, paths), written, id);
}

/// What a commit wrote is found in the store under its id, with the id as its
/// file and everything else as it was parsed.
pub proof fn law_written_entity_is_found(
    s: Seq<Entity>,
    mem: Seq<char>,
    changes: Seq<EntityChange>,
    parsed: Seq<Entity>,
    i: int,
)
    requires
        ids_unique(s),
        ids_unique(parsed),
        0 <= i < parsed.len(),
    ensures
        entity_of(store_after(s, mem, changes, parsed), parsed[i].id.0@) matches Some(e)
            && e.file_path@ == parsed[i].id.0@ && e == (Entity {
            file_path: e.file_path,
            ..parsed[i]
        }),
{
    law_commit_lands(s, mem, changes, parsed);
}

/// A commit that was applied is known afterwards: the mount of its mem stands
/// at its sha, no other mount has changed, and where the head moved, one more
/// event waits that tells of the mem, the new head and the one before.
/// Nothing is asked of the surroundings.
#[verifier::rlimit(40)]
pub proof fn law_applied_commit_is_known<B, H: Host>(
    pre: Engine<B, H>,
    envelope: CommitEnvelope,
    post: Engine<B, H>,
)
    requires
        applies(pre, envelope, post, Ok::<(), EngineError>(())),
    ensures
        post.host == pre.host,
        post.schemas == pre.schemas,
        pre.known_head(envelope.mem@) != Some(envelope.sha@) && !(pre.known_head(envelope.mem@)
            is None && envelope.sha@.len() == 0) ==> {
            &&& post.pending_events@.len() == pre.pending_events@.len() + 1
            &&& post.pending_events@.drop_last() == pre.pending_events@
            &&& post.pending_events@.last().vault@ == envelope.mem@
            &&& post.pending_events@.last().head@ == envelope.sha@
            &&& post.pending_events@.last().previous@ == (match pre.known_head(envelope.mem@) {
                Some(h) => h,
                None => Seq::empty(),
            })
        },
        pre.known_head(envelope.mem@) == Some(envelope.sha@) ==> post.pending_events
            == pre.pending_events,
        post.mounts@.len() == pre.mounts@.len(),
        post.known_head(envelope.mem@) == Some(envelope.sha@),
        forall|k: int|
            0 <= k < pre.mounts@.len() && pre.mount_at(envelope.mem@) != Some(k) ==> (
            #[trigger] post.mounts@[k]) == pre.mounts@[k],
{
    let at = pre.mount_at(envelope.mem@)->0;
    let schema = schema_of(pre.schemas@, envelope.mem@)->0;
    let load = choose|load: LoadResult| #[trigger]
        parse_reply(
            &pre.host,
            written_files(envelope.changes@),
            Seq::empty(),
            envelope.mem@,
            schema,
            Seq::empty(),
            load,
        ) && replays(pre, at, envelope, load, post, Ok(()));
    lemma_mount_index(pre.mounts@, envelope.mem@, 0);
    lemma_same_place(pre.mounts@, post.mounts@, envelope.mem@, 0);
}

/// Where mounts keep their mems, the mount of a mem stays where it is.
proof fn lemma_same_place<B>(
    a: Seq<crate::engine::MountedBackend<B>>,
    b: Seq<crate::engine::MountedBackend<B>>,
    mem: Seq<char>,
    i: int,
)
    requires
        0 <= i,
        a.len() == b.len(),
        forall|k: int| 0 <= k < a.len() ==> (#[trigger] a[k]).mount == b[k].mount,
    ensures
        crate::engine::mount_index(a, mem, i) == crate::engine::mount_index(b, mem, i),
    decreases a.len() - i,
{
    if i < a.len() {
        lemma_same_place(a, b, mem, i + 1);
        assert(a[i].mount == b[i].mount);
    }
}

/// A commit with a file that does not parse is refused whole, and the refusal
/// names the file and the mem.
pub proof fn law_unparsed_commit_is_refused<B, H: Host>(
    pre: Engine<B, H>,
    envelope: CommitEnvelope,
    post: Engine<B, H>,
    r: Result<(), EngineError>,
)
    requires
        applies(pre, envelope, post, r),
        pre.mount_at(envelope.mem@) is Some,
        schema_of(pre.schemas@, envelope.mem@) is Some,
        forall|load: LoadResult| #[trigger]
            parse_reply(
                &pre.host,
                written_files(envelope.changes@),
                Seq::empty(),
                envelope.mem@,
                schema_of(pre.schemas@, envelope.mem@)->0,
                Seq::empty(),
                load,
            ) ==> load.errors@.len() > 0,
    ensures
        post == pre,
        r matches Err(EngineError::Parse(_)),
{
}

} // verus!
