//! What holds of finding and resolving conflicts, over the files of the
//! folders and over what the host found.

use crate::backend::{MemBackend, Origin};
use crate::conflicts::{
    all_lines, commit_message, conflicted, file_index, folder_of, folder_targets, found_in,
    is_conflicted, judges_side, line_starts, lists_conflicts, lists_for, opens_conflict, plans,
    resolves, side_named, writable_mems, ConflictSide, ConflictedEntity, ConflictedView,
    ResolveConflictOutcome,
};
use crate::engine::{quarantine_index, Engine, MountedBackend};
use crate::entity::{id_mem, joined_id, without_md, Entity, EntityId};
use crate::error::{EngineError, ParseError, ValidationError};
use crate::host::{
    catch_all_reply, content_reply, directory_reply, entry_type_reply, keys_reply, parse_one_reply,
    Host, Surroundings,
};
use crate::ops::SourceEntry;
use crate::schema::{Schema, TypeDefinition};
use crate::sort::{lemma_same_members, sorted, views};
use crate::text::{closed_lines, is_line, lemma_shown_last, lex_less, occurs_at, shows, starts};
use crate::workspace::{MountCapability, MountStorage};
use std::sync::Arc;
use vstd::prelude::*;

verus! {

// ---------------------------------------------------------------------
// Finding conflicts
// ---------------------------------------------------------------------

/// The text of lines where one more is behind them.
proof fn lemma_one_line_more(ls: Seq<Seq<char>>)
    requires
        ls.len() > 0,
    ensures
        closed_lines(ls) == closed_lines(ls.drop_last()) + ls.last() + seq!['\n'],
        closed_lines(ls).last() == '\n',
{
}

/// A text opens a conflict, where it holds no code, just where one of its
/// lines begins with seven angle brackets and a blank.
pub proof fn law_conflict_is_seen(ls: Seq<Seq<char>>)
    requires
        all_lines(ls),
    ensures
        opens_conflict(closed_lines(ls), closed_lines(ls)) <==> exists|i: int|
            0 <= i < ls.len() && starts(#[trigger] ls[i], "<<<<<<< "@),
{
    let s = closed_lines(ls);
    if exists|i: int| 0 <= i < ls.len() && starts(#[trigger] ls[i], "<<<<<<< "@) {
        let i = choose|i: int| 0 <= i < ls.len() && starts(#[trigger] ls[i], "<<<<<<< "@);
        let p = lemma_line_opens(ls, i);
        assert(line_starts(s, p) && occurs_at(s, "<<<<<<< "@, p));
    }
    if opens_conflict(s, s) {
        let p = choose|p: int| #[trigger] line_starts(s, p) && occurs_at(s, "<<<<<<< "@, p);
        let i = lemma_opened_by(ls, p);
        assert(starts(ls[i], "<<<<<<< "@));
    }
}

/// A line that begins with the marker begins somewhere in the text.
proof fn lemma_line_opens(ls: Seq<Seq<char>>, i: int) -> (p: int)
    requires
        0 <= i < ls.len(),
        starts(ls[i], "<<<<<<< "@),
    ensures
        line_starts(closed_lines(ls), p),
        occurs_at(closed_lines(ls), "<<<<<<< "@, p),
    decreases ls.len(),
{
    let mark = "<<<<<<< "@;
    let s = closed_lines(ls);
    let before = closed_lines(ls.drop_last());
    lemma_one_line_more(ls);
    if i < ls.len() - 1 {
        assert(ls.drop_last()[i] == ls[i]);
        let p = lemma_line_opens(ls.drop_last(), i);
        assert(s.subrange(p, p + mark.len()) =~= before.subrange(p, p + mark.len()));
        p
    } else {
        let p = before.len() as int;
        assert(s.subrange(p, p + mark.len()) =~= ls[i].subrange(0, mark.len() as int));
        if ls.len() > 1 {
            lemma_one_line_more(ls.drop_last());
            assert(s[p - 1] == before.last());
        }
        p
    }
}

/// A marker at the beginning of a line is the beginning of one of the lines.
#[verifier::rlimit(40)]
proof fn lemma_opened_by(ls: Seq<Seq<char>>, p: int) -> (i: int)
    requires
        all_lines(ls),
        line_starts(closed_lines(ls), p),
        occurs_at(closed_lines(ls), "<<<<<<< "@, p),
    ensures
        0 <= i < ls.len(),
        starts(ls[i], "<<<<<<< "@),
    decreases ls.len(),
{
    let mark = "<<<<<<< "@;
    reveal_strlit("<<<<<<< ");
    let s = closed_lines(ls);
    let n = ls.len() - 1;
    let before = closed_lines(ls.drop_last());
    lemma_one_line_more(ls);
    assert(is_line(ls[n]));
    assert forall|x: int| 0 <= x < 8 implies s[p + x] == mark[x] by {
        assert(s.subrange(p, p + 8)[x] == mark[x]);
    }
    if p < before.len() {
        lemma_one_line_more(ls.drop_last());
        if p + 8 > before.len() - 1 {
            assert(s[before.len() - 1] == '\n');
            assert(s[p + (before.len() - 1 - p)] == mark[before.len() - 1 - p]);
        }
        assert(before.subrange(p, p + 8) =~= s.subrange(p, p + 8));
        assert forall|k: int| 0 <= k < ls.drop_last().len() implies is_line(
            #[trigger] ls.drop_last()[k],
        ) by {
            assert(ls.drop_last()[k] == ls[k]);
        }
        if p > 0 {
            assert(before[p - 1] == s[p - 1]);
        }
        let i = lemma_opened_by(ls.drop_last(), p);
        assert(ls.drop_last()[i] == ls[i]);
        i
    } else if p == before.len() {
        if p + 8 > s.len() - 1 {
            assert(s[p + (s.len() - 1 - p)] == mark[s.len() - 1 - p]);
        }
        assert(ls[n].subrange(0, 8) =~= s.subrange(p, p + 8));
        n
    } else {
        assert(s[p - 1] == ls[n][p - 1 - before.len()]);
        assert(ls[n].contains('\n'));
        n
    }
}

/// The conflicts of a folder are just its files in conflict, each under the id
/// of its path.
pub proof fn law_folder_conflicts(
    files: Seq<(Seq<char>, Seq<char>)>,
    mem: Seq<char>,
    v: ConflictedView,
)
    ensures
        conflicted(files, mem).contains(v) <==> v.mem == mem && v.id == joined_id(
            mem,
            without_md(v.file_path),
        ) && exists|i: int|
            0 <= i < files.len() && (#[trigger] files[i]).0 == v.file_path && is_conflicted(
                files[i].1,
            ),
    decreases files.len(),
{
    let all = conflicted(files, mem);
    if files.len() > 0 {
        let head = files.drop_last();
        let rest = conflicted(head, mem);
        let n = files.len() - 1;
        law_folder_conflicts(head, mem, v);
        if all.contains(v) {
            let k = choose|k: int| 0 <= k < all.len() && all[k] == v;
            if k < rest.len() {
                assert(rest[k] == v);
                assert(rest.contains(v));
                let i = choose|i: int|
                    0 <= i < head.len() && (#[trigger] head[i]).0 == v.file_path && is_conflicted(
                        head[i].1,
                    );
                assert(files[i] == head[i]);
            } else {
                assert(files[n].0 == v.file_path);
            }
        }
        if v.mem == mem && v.id == joined_id(mem, without_md(v.file_path)) && exists|i: int|
            0 <= i < files.len() && (#[trigger] files[i]).0 == v.file_path && is_conflicted(
                files[i].1,
            ) {
            let i = choose|i: int|
                0 <= i < files.len() && (#[trigger] files[i]).0 == v.file_path && is_conflicted(
                    files[i].1,
                );
            if i < n {
                assert(head[i] == files[i]);
                let k = choose|k: int| 0 <= k < rest.len() && rest[k] == v;
                assert(all[k] == v);
            } else {
                assert(all[rest.len() as int] == v);
            }
        }
    }
}

/// The folders that are looked through for conflicts are just those of the
/// writable mounts that are stored in a folder.
pub proof fn law_writable_folders_are_looked_through<B>(
    mounts: Seq<MountedBackend<B>>,
    mem: Seq<char>,
    path: Seq<char>,
)
    ensures
        folder_targets(mounts).contains((mem, path)) <==> exists|k: int|
            0 <= k < mounts.len() && is_writable_folder(#[trigger] mounts[k], mem, path),
    decreases mounts.len(),
{
    let all = folder_targets(mounts);
    if mounts.len() > 0 {
        let head = mounts.drop_last();
        let rest = folder_targets(head);
        let n = mounts.len() - 1;
        law_writable_folders_are_looked_through(head, mem, path);
        if all.contains((mem, path)) {
            let k = choose|k: int| 0 <= k < all.len() && all[k] == (mem, path);
            if k < rest.len() {
                assert(rest[k] == (mem, path));
                assert(rest.contains((mem, path)));
                let i = choose|i: int|
                    0 <= i < head.len() && is_writable_folder(#[trigger] head[i], mem, path);
                assert(is_writable_folder(mounts[i], mem, path));
            } else {
                assert(is_writable_folder(mounts[n], mem, path));
            }
        }
        if exists|k: int| 0 <= k < mounts.len() && is_writable_folder(
            #[trigger] mounts[k],
            mem,
            path,
        ) {
            let i = choose|i: int|
                0 <= i < mounts.len() && is_writable_folder(#[trigger] mounts[i], mem, path);
            if i < n {
                assert(is_writable_folder(head[i], mem, path));
                let k = choose|k: int| 0 <= k < rest.len() && rest[k] == (mem, path);
                assert(all[k] == (mem, path));
            } else {
                assert(all[rest.len() as int] == (mem, path));
            }
        }
    }
}

/// Whether a mount is a writable one of a mem, stored in the folder `path`.
pub open spec fn is_writable_folder<B>(
    m: MountedBackend<B>,
    mem: Seq<char>,
    path: Seq<char>,
) -> bool {
    m.mount.mem@ == mem && m.mount.capability == MountCapability::Write && (m.mount.storage
        matches MountStorage::Folder { path: p } && p@ == path)
}

/// What was found is what one of the folders holds.
proof fn lemma_found(
    targets: Seq<(Seq<char>, Seq<char>)>,
    replies: Seq<Result<Vec<SourceEntry>, String>>,
    v: ConflictedView,
)
    ensures
        found_in(targets, replies).contains(v) <==> exists|i: int|
            0 <= i < replies.len() && found_by(targets[i].0, #[trigger] replies[i], v),
    decreases replies.len(),
{
    let all = found_in(targets, replies);
    if replies.len() > 0 {
        let head = replies.drop_last();
        let rest = found_in(targets, head);
        let n = replies.len() - 1;
        lemma_found(targets, head, v);
        if all.contains(v) {
            let k = choose|k: int| 0 <= k < all.len() && all[k] == v;
            if k < rest.len() {
                assert(rest[k] == v);
                assert(rest.contains(v));
                let i = choose|i: int|
                    0 <= i < head.len() && found_by(targets[i].0, #[trigger] head[i], v);
                assert(found_by(targets[i].0, replies[i], v));
            } else {
                let own = conflicted(views((replies[n]->Ok_0)@), targets[n].0);
                assert(own[k - rest.len()] == v);
                assert(found_by(targets[n].0, replies[n], v));
            }
        }
        if exists|i: int|
            0 <= i < replies.len() && found_by(targets[i].0, #[trigger] replies[i], v) {
            let i = choose|i: int|
                0 <= i < replies.len() && found_by(targets[i].0, #[trigger] replies[i], v);
            if i < n {
                assert(found_by(targets[i].0, head[i], v));
                let k = choose|k: int| 0 <= k < rest.len() && rest[k] == v;
                assert(all[k] == v);
            } else {
                let own = conflicted(views((replies[n]->Ok_0)@), targets[n].0);
                let k = choose|k: int| 0 <= k < own.len() && own[k] == v;
                assert(all[rest.len() + k] == v);
            }
        }
    }
}

/// Whether a folder's reply shows a conflict.
spec fn found_by(
    mem: Seq<char>,
    reply: Result<Vec<SourceEntry>, String>,
    v: ConflictedView,
) -> bool {
    reply matches Ok(files) && conflicted(views(files@), mem).contains(v)
}

/// Whether a list of conflicts names a file of a mem under the id of its path.
pub open spec fn lists(list: Seq<ConflictedEntity>, mem: Seq<char>, path: Seq<char>) -> bool {
    exists|j: int|
        0 <= j < list.len() && (#[trigger] list[j]).mem@ == mem && list[j].file_path@ == path
            && list[j].id.0@ == joined_id(mem, without_md(path))
}

/// Every writable folder is read, and every file of it in conflict is listed.
#[verifier::rlimit(40)]
pub proof fn law_every_conflict_is_listed<B, H: Host>(
    h: &Surroundings<H>,
    mounts: Seq<MountedBackend<B>>,
    list: Vec<ConflictedEntity>,
    mem: Seq<char>,
    root: Seq<char>,
    k: int,
)
    requires
        lists_conflicts(
            h,
            folder_targets(mounts),
            Ok::<Vec<ConflictedEntity>, EngineError>(list),
        ),
        0 <= k < mounts.len(),
        is_writable_folder(mounts[k], mem, root),
    ensures
        exists|files: Vec<SourceEntry>| #[trigger]
            directory_reply(h, root, Ok::<Vec<SourceEntry>, String>(files)) && forall|i: int|
                0 <= i < files@.len() && is_conflicted((#[trigger] files@[i]).content@) ==> lists(
                    list@,
                    mem,
                    files@[i].relative_path@,
                ),
{
    let targets = folder_targets(mounts);
    let less = |a: ConflictedView, b: ConflictedView| lex_less(a.id, b.id);
    let replies = choose|replies: Seq<Result<Vec<SourceEntry>, String>>|
        replies.len() == targets.len() && (forall|i: int|
            0 <= i < replies.len() ==> directory_reply(
                h,
                targets[i].1,
                #[trigger] replies[i],
            )) && (forall|i: int| 0 <= i < replies.len() ==> (#[trigger] replies[i]) is Ok)
            && views(list@) == sorted(#[trigger] found_in(targets, replies), less);
    law_writable_folders_are_looked_through(mounts, mem, root);
    assert(targets.contains((mem, root)));
    let t = choose|t: int| 0 <= t < targets.len() && targets[t] == (mem, root);
    assert(directory_reply(h, targets[t].1, replies[t]));
    let files = replies[t]->Ok_0;
    assert(replies[t] == Ok::<Vec<SourceEntry>, String>(files));
    assert forall|i: int|
        0 <= i < files@.len() && is_conflicted((#[trigger] files@[i]).content@) implies lists(
        list@,
        mem,
        files@[i].relative_path@,
    ) by {
        let path = files@[i].relative_path@;
        let v = ConflictedView { id: joined_id(mem, without_md(path)), mem, file_path: path };
        let fv = views(files@);
        assert(fv[i] == (path, files@[i].content@));
        law_folder_conflicts(fv, mem, v);
        assert(found_by(mem, replies[t], v));
        lemma_found(targets, replies, v);
        lemma_same_members(found_in(targets, replies), less, v);
        let j = choose|j: int| 0 <= j < views(list@).len() && views(list@)[j] == v;
        assert(list@[j]@ == v);
    }
}

/// Every conflict that is listed is a file in conflict of a folder that was
/// read.
#[verifier::rlimit(40)]
pub proof fn law_listed_conflicts_are_there<H: Host>(
    h: &Surroundings<H>,
    targets: Seq<(Seq<char>, Seq<char>)>,
    list: Vec<ConflictedEntity>,
    j: int,
)
    requires
        lists_conflicts(h, targets, Ok::<Vec<ConflictedEntity>, EngineError>(list)),
        0 <= j < list@.len(),
    ensures
        exists|t: int, files: Vec<SourceEntry>|
            #![trigger targets[t], directory_reply(h, targets[t].1, Ok::<Vec<SourceEntry>, String>(files))]
            0 <= t < targets.len() && targets[t].0 == list@[j].mem@ && directory_reply(
                h,
                targets[t].1,
                Ok::<Vec<SourceEntry>, String>(files),
            ) && shows_conflict(files@, list@[j].file_path@),
        list@[j].id.0@ == joined_id(list@[j].mem@, without_md(list@[j].file_path@)),
{
    let less = |a: ConflictedView, b: ConflictedView| lex_less(a.id, b.id);
    let replies = choose|replies: Seq<Result<Vec<SourceEntry>, String>>|
        replies.len() == targets.len() && (forall|i: int|
            0 <= i < replies.len() ==> directory_reply(
                h,
                targets[i].1,
                #[trigger] replies[i],
            )) && (forall|i: int| 0 <= i < replies.len() ==> (#[trigger] replies[i]) is Ok)
            && views(list@) == sorted(#[trigger] found_in(targets, replies), less);
    let v = list@[j]@;
    assert(views(list@)[j] == v);
    lemma_same_members(found_in(targets, replies), less, v);
    assert(sorted(found_in(targets, replies), less).contains(v));
    lemma_found(targets, replies, v);
    let t = choose|t: int|
        0 <= t < replies.len() && found_by(targets[t].0, #[trigger] replies[t], v);
    let files = replies[t]->Ok_0;
    assert(replies[t] == Ok::<Vec<SourceEntry>, String>(files));
    law_folder_conflicts(views(files@), targets[t].0, v);
    let i = choose|i: int|
        0 <= i < views(files@).len() && (#[trigger] views(files@)[i]).0 == v.file_path
            && is_conflicted(views(files@)[i].1);
    assert(views(files@)[i] == (files@[i].relative_path@, files@[i].content@));
    assert(shows_conflict(files@, list@[j].file_path@));
    assert(directory_reply(h, targets[t].1, Ok::<Vec<SourceEntry>, String>(files)));
}

/// Whether files hold one at `path` that is in conflict.
pub open spec fn shows_conflict(files: Seq<SourceEntry>, path: Seq<char>) -> bool {
    exists|i: int|
        0 <= i < files.len() && (#[trigger] files[i]).relative_path@ == path && is_conflicted(
            files[i].content@,
        )
}

// ---------------------------------------------------------------------
// Resolving conflicts
// ---------------------------------------------------------------------

/// The file of an id is the first whose path has the id.
proof fn lemma_file_index(
    files: Seq<(Seq<char>, Seq<char>)>,
    mem: Seq<char>,
    id: Seq<char>,
    i: int,
)
    requires
        0 <= i,
    ensures
        match file_index(files, mem, id, i) {
            Some(k) => i <= k < files.len() && joined_id(mem, without_md(files[k].0)) == id,
            None => forall|j: int|
                i <= j < files.len() ==> joined_id(mem, without_md((#[trigger] files[j]).0)) != id,
        },
    decreases files.len() - i,
{
    if i < files.len() && joined_id(mem, without_md(files[i].0)) != id {
        lemma_file_index(files, mem, id, i + 1);
    }
}

/// A request to resolve what cannot be resolved is refused for what it is: an
/// id that no file of the folder has is not found, and one whose file holds no
/// conflict is not in conflict.
pub proof fn law_plan_refuses_what_is_not_there(
    files: Seq<(Seq<char>, Seq<char>)>,
    mem: Seq<char>,
    id: Seq<char>,
    side: ConflictSide,
    r: Result<(Seq<char>, Seq<char>), EngineError>,
)
    requires
        plans(files, mem, id, side, r),
    ensures
        (forall|j: int|
            0 <= j < files.len() ==> joined_id(mem, without_md((#[trigger] files[j]).0)) != id)
            ==> (r matches Err(EngineError::NotFound { id: i }) && i@ == id),
        (forall|j: int|
            0 <= j < files.len() ==> joined_id(mem, without_md((#[trigger] files[j]).0)) == id
                ==> !is_conflicted(files[j].1)) ==> !(r is Ok),
        r is Ok ==> exists|j: int|
            0 <= j < files.len() && joined_id(mem, without_md((#[trigger] files[j]).0)) == id
                && is_conflicted(files[j].1) && (r->Ok_0).0 == files[j].0,
        (r matches Err(EngineError::NotConflicted { .. })) ==> exists|j: int|
            0 <= j < files.len() && joined_id(mem, without_md((#[trigger] files[j]).0)) == id
                && !is_conflicted(files[j].1),
{
    lemma_file_index(files, mem, id, 0);
}

/// Only a folder that is mounted for writing can be resolved: a mem that is
/// mounted for reading alone, and one that is stored in no folder, are refused
/// by name and nothing changes.
pub proof fn law_only_writable_folders_are_resolved<B: MemBackend, H: Host>(
    pre: Engine<B, H>,
    id: EntityId,
    side: ConflictSide,
    from: Origin,
    post: Engine<B, H>,
    r: Result<ResolveConflictOutcome, EngineError>,
)
    requires
        resolves(pre, id, side, from, post, r),
        quarantine_index(pre.quarantined@, id_mem(id.0@), 0) is None,
    ensures
        match pre.mount_of(id_mem(id.0@)) {
            None => post == pre && (r matches Err(EngineError::UnknownMem(m)) && m@ == id_mem(
                id.0@,
            )),
            Some(m) => if m.mount.capability == MountCapability::ReadOnly {
                post == pre && (r matches Err(EngineError::ReadOnlyMount(m)) && m@ == id_mem(id.0@))
            } else if !(m.mount.storage is Folder) {
                post == pre && (r matches Err(
                    EngineError::MergeConflictUnsupportedBackend { mem },
                ) && mem@ == id_mem(id.0@))
            } else {
                r is Ok ==> m.mount.capability == MountCapability::Write
            },
        },
{
}

/// A side that may be written passed all that a write is held to: the host
/// parsed it as an entity, knows every section of it and found nothing against
/// what they hold.
pub proof fn law_written_side_passed_everything<H: Host>(
    h: &Surroundings<H>,
    schema: Arc<Schema>,
    content: Seq<char>,
    path: Seq<char>,
    mem: Seq<char>,
)
    requires
        judges_side(h, schema, content, path, mem, Ok(())),
    ensures
        exists|t: TypeDefinition, e: Entity|
            #![trigger entry_type_reply(h, schema, content, t), parse_one_reply(h, content, path, t, mem, Ok(e))]
            entry_type_reply(h, schema, content, t) && parse_one_reply(
                h,
                content,
                path,
                t,
                mem,
                Ok(e),
            ) && sections_pass(h, t, e.sections@),
{
    let (t, parsed) = choose|t: TypeDefinition, parsed: Result<Entity, ParseError>|
        #![trigger entry_type_reply(h, schema, content, t), parse_one_reply(h, content, path, t, mem, parsed)]
        entry_type_reply(h, schema, content, t) && parse_one_reply(
            h,
            content,
            path,
            t,
            mem,
            parsed,
        ) && match parsed {
            Err(e) => false,
            Ok(entity) => crate::conflicts::judges_sections(h, t, entity.sections@, Ok(())),
        };
    let e = parsed->Ok_0;
    assert(parsed == Ok::<Entity, ParseError>(e));
    let keys = crate::conflicts::section_keys(e.sections@);
    assert(are_keys(keys, e.sections@));
    assert(sections_pass(h, t, e.sections@));
}

/// Whether a list names the sections by their keys, in their order.
pub open spec fn are_keys(keys: Seq<Seq<char>>, sections: Seq<(String, String)>) -> bool {
    keys.len() == sections.len() && forall|i: int|
        0 <= i < keys.len() ==> #[trigger] keys[i] == sections[i].0@
}

/// Whether the host knows every section and found nothing against them.
pub open spec fn sections_pass<H: Host>(
    h: &Surroundings<H>,
    t: TypeDefinition,
    sections: Seq<(String, String)>,
) -> bool {
    &&& exists|keys: Seq<Seq<char>>, known: Result<(), ValidationError>| #[trigger]
        keys_reply(h, keys, t, known) && known is Ok && are_keys(keys, sections)
    &&& exists|catch_all: Option<Vec<String>>, held: Result<(), ValidationError>|
        #![trigger catch_all_reply(h, t, catch_all), content_reply(h, sections, catch_all, held)]
        catch_all_reply(h, t, catch_all) && content_reply(h, sections, catch_all, held) && held
            is Ok
}

/// The message of a resolution names the entity and the side that was kept.
pub proof fn law_commit_message_names_the_resolution(id: Seq<char>)
    ensures
        shows(commit_message(id, ConflictSide::Ours), id + " (side: ours)"@),
        shows(commit_message(id, ConflictSide::Theirs), id + " (side: theirs)"@),
{
    let front = "memstead: resolve-conflict "@;
    assert(" (side: "@ + "ours"@ + ")"@ =~= " (side: ours)"@) by {
        reveal_strlit(" (side: ");
        reveal_strlit("ours");
        reveal_strlit(")");
        reveal_strlit(" (side: ours)");
    }
    assert(" (side: "@ + "theirs"@ + ")"@ =~= " (side: theirs)"@) by {
        reveal_strlit(" (side: ");
        reveal_strlit("theirs");
        reveal_strlit(")");
        reveal_strlit(" (side: theirs)");
    }
    assert(commit_message(id, ConflictSide::Ours) =~= front + (id + " (side: ours)"@));
    assert(commit_message(id, ConflictSide::Theirs) =~= front + (id + " (side: theirs)"@));
    lemma_shown_last(front, id + " (side: ours)"@);
    lemma_shown_last(front, id + " (side: theirs)"@);
}

/// The mems that are read again after a resolution are just those that are
/// mounted for writing.
pub proof fn law_writable_mems_are_read_again<B>(mounts: Seq<MountedBackend<B>>, mem: Seq<char>)
    ensures
        writable_mems(mounts).contains(mem) <==> exists|k: int|
            0 <= k < mounts.len() && (#[trigger] mounts[k]).mount.mem@ == mem
                && mounts[k].mount.capability == MountCapability::Write,
    decreases mounts.len(),
{
    let all = writable_mems(mounts);
    if mounts.len() > 0 {
        let head = mounts.drop_last();
        let rest = writable_mems(head);
        let n = mounts.len() - 1;
        law_writable_mems_are_read_again(head, mem);
        if all.contains(mem) {
            let k = choose|k: int| 0 <= k < all.len() && all[k] == mem;
            if k < rest.len() {
                assert(rest[k] == mem);
                assert(rest.contains(mem));
                let i = choose|i: int|
                    0 <= i < head.len() && (#[trigger] head[i]).mount.mem@ == mem
                        && head[i].mount.capability == MountCapability::Write;
                assert(mounts[i] == head[i]);
            } else {
                assert(mounts[n].mount.mem@ == mem);
            }
        }
        if exists|k: int|
            0 <= k < mounts.len() && (#[trigger] mounts[k]).mount.mem@ == mem
                && mounts[k].mount.capability == MountCapability::Write {
            let i = choose|i: int|
                0 <= i < mounts.len() && (#[trigger] mounts[i]).mount.mem@ == mem
                    && mounts[i].mount.capability == MountCapability::Write;
            if i < n {
                assert(head[i] == mounts[i]);
                let k = choose|k: int| 0 <= k < rest.len() && rest[k] == mem;
                assert(all[k] == mem);
            } else {
                assert(all[rest.len() as int] == mem);
            }
        }
    }
}

/// A side is read back from its token, and no other token names one.
pub proof fn law_side_reads_back(side: ConflictSide, s: Seq<char>)
    ensures
        side_named(side.token()) == Some(side),
        side_named(s) matches Some(x) ==> s == x.token(),
        side_named("ours"@) == Some(ConflictSide::Ours),
        side_named("theirs"@) == Some(ConflictSide::Theirs),
{
    reveal_strlit("ours");
    reveal_strlit("theirs");
    assert("ours"@.len() == 4 && "theirs"@.len() == 6);
}

/// The conflicts of one mem are asked for in its folder alone, and all that are
/// listed are of that mem; a mem that cannot be resolved is refused.
pub proof fn law_conflicts_of_one_mem<B, H: Host>(
    engine: Engine<B, H>,
    mem: Seq<char>,
    r: Result<Vec<ConflictedEntity>, EngineError>,
)
    requires
        lists_for(engine, Some(mem), r),
        quarantine_index(engine.quarantined@, mem, 0) is None,
    ensures
        engine.mount_of(mem) is None ==> (r matches Err(EngineError::UnknownMem(m)) && m@ == mem),
        engine.mount_of(mem) matches Some(m) ==> (m.mount.capability == MountCapability::ReadOnly
            ==> (r matches Err(EngineError::ReadOnlyMount(n)) && n@ == mem)),
        r matches Ok(list) ==> forall|j: int|
            0 <= j < list@.len() ==> (#[trigger] list@[j]).mem@ == mem,
{
    if let Ok(list) = r {
        assert forall|j: int| 0 <= j < list@.len() implies (#[trigger] list@[j]).mem@ == mem by {
            let targets = seq![(mem, (folder_of(engine, mem)->0).1)];
            law_listed_conflicts_are_there(&engine.host, targets, list, j);
            let (t, files) = choose|t: int, files: Vec<SourceEntry>|
                #![trigger targets[t], directory_reply(&engine.host, targets[t].1, Ok::<Vec<SourceEntry>, String>(files))]
                0 <= t < targets.len() && targets[t].0 == list@[j].mem@ && directory_reply(
                    &engine.host,
                    targets[t].1,
                    Ok::<Vec<SourceEntry>, String>(files),
                ) && shows_conflict(files@, list@[j].file_path@);
            assert(targets[t].0 == mem);
        }
    }
}

} // verus!
