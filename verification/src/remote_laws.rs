//! What holds of fetches, pulls, pushes and resets: what is asked of the
//! surroundings, what a success leaves, and what a refusal is told as.

use crate::backend::{head_reply, BackendError, MemBackend};
use crate::drift::{
    adds_named_remote, checks_ref, diffs, fetch_all, fetches, head_moves, is_config,
    is_plain_argument, lifts_pull, lifts_push, lifts_ref, lifts_remote, lifts_reset, listed_parts,
    marked, payload_head, payload_tail, probed_mems, pulls, pulls_fetched, pulls_valid, pushes,
    repo_from, repo_of, resets, tells_changes, tells_drift, tells_stranded, StrandedView,
};
use crate::drift_laws::{
    is_stranded, law_accepted_tree_is_in_order, law_stranded_is_what_points_there, tree_stands,
};
use crate::engine::{asked, lemma_mount_index, mount_index, schema_of, Engine, MountedBackend};
use crate::error::EngineError;
use crate::host::{
    diff_reply, fetch_reply, pull_reply, reset_reply, tree_reply, Host, HostCall, Surroundings,
};
use crate::ops::{
    BranchResetOutcome, ChangesReport, Diff, DiffConfig, FetchOutcome, PullOutcome, PushOutcome,
    RemoteAddOutcome, Similarity, SourceEntry, StrandedCrossMemRef,
};
use crate::sort::views;
use crate::text::{is_space, join, lemma_next_char_skips, next_char, starts, strip_all, texts, trim};
use crate::workspace::MountStorage;
use vstd::prelude::*;

verus! {

// ---------------------------------------------------------------------
// What a backend's refusal is told as
// ---------------------------------------------------------------------

/// A text behind a marker that it does not begin with again.
pub open spec fn marked_text(prefix: Seq<char>, payload: Seq<char>, m: String) -> bool {
    m@ == prefix + payload && !starts(payload, prefix)
}

/// What stands behind a marker is read back; an error without the marker holds
/// nothing.
proof fn lemma_marked(prefix: Seq<char>, payload: Seq<char>, m: String)
    requires
        prefix.len() > 0,
        marked_text(prefix, payload, m),
    ensures
        marked(BackendError::Other(m), prefix) == Some(payload),
{
    assert(m@.subrange(0, prefix.len() as int) =~= prefix);
    assert(m@.skip(prefix.len() as int) =~= payload);
    assert(strip_all(payload, prefix) == payload);
}

/// A text that begins otherwise is not marked.
proof fn lemma_unmarked(a: Seq<char>, b: Seq<char>, m: String)
    requires
        a.len() > 0 && b.len() > 0,
        starts(m@, a),
        a[0] != b[0],
    ensures
        marked(BackendError::Other(m), b) is None,
{
    assert(m@.subrange(0, a.len() as int)[0] == a[0]);
    if starts(m@, b) {
        assert(m@.subrange(0, b.len() as int)[0] == b[0]);
    }
}

/// The two parts of a text with a colon between them.
proof fn lemma_payload(head: Seq<char>, tail: Seq<char>, other: Seq<char>)
    requires
        !head.contains(':'),
    ensures
        payload_head(head + seq![':'] + tail) == head,
        payload_tail(head + seq![':'] + tail, other) == tail,
{
    let p = head + seq![':'] + tail;
    assert forall|j: int| 0 <= j < head.len() implies p[j] != ':' by {
        assert(p[j] == head[j]);
        assert(head.contains(head[j]));
    }
    lemma_next_char_skips(p, ':', 0, head.len() as int);
    assert(p[head.len() as int] == ':');
    assert(next_char(p, ':', 0) == head.len());
    assert(p.take(head.len() as int) =~= head);
    assert(p.skip((head.len() + 1) as int) =~= tail);
}

/// A text that is not trimmed further.
spec fn is_trimmed(s: Seq<char>) -> bool {
    s.len() > 0 ==> !is_space(s[0]) && !is_space(s.last())
}

/// A remote that the repository does not know is told by its name, whichever
/// way it was asked for.
pub proof fn law_unknown_remote_is_told(
    name: Seq<char>,
    remote: Seq<char>,
    m: String,
    out: EngineError,
)
    requires
        marked_text("UNKNOWN_REMOTE:"@, name, m),
        name.len() > 0 ==> !is_space(name[0]) && !is_space(name.last()),
    ensures
        lifts_remote(BackendError::Other(m), out) || lifts_pull(BackendError::Other(m), out)
            || lifts_push(remote, BackendError::Other(m), out) ==> (out
            matches EngineError::UnknownRemote(n) && n@ == name),
{
    reveal_strlit("UNKNOWN_REMOTE:");
    lemma_marked("UNKNOWN_REMOTE:"@, name, m);
    assert(trim(name) == name);
}

/// A ref that the repository does not know is told by its name, whichever way
/// it was asked for.
pub proof fn law_unknown_ref_is_told(
    name: Seq<char>,
    mem: Seq<char>,
    target: Seq<char>,
    m: String,
    out: EngineError,
)
    requires
        marked_text("UNKNOWN_REF:"@, name, m),
        name.len() > 0 ==> !is_space(name[0]) && !is_space(name.last()),
    ensures
        lifts_ref(BackendError::Other(m), out) || lifts_reset(
            mem,
            target,
            BackendError::Other(m),
            out,
        ) ==> (out matches EngineError::UnknownRef(n) && n@ == name),
{
    reveal_strlit("UNKNOWN_REF:");
    lemma_marked("UNKNOWN_REF:"@, name, m);
    assert(trim(name) == name);
}

/// A pull onto a branch that went its own way is told as such, with the mem
/// and the ref; a push that would not move forward, with the mem and the
/// remote.
pub proof fn law_divergence_is_told(
    mem: Seq<char>,
    at: Seq<char>,
    remote: Seq<char>,
    pulled: String,
    pushed: String,
    out: EngineError,
)
    requires
        !mem.contains(':'),
        marked_text("LOCAL_DIVERGENCE:"@, mem + seq![':'] + at, pulled),
        marked_text("NON_FAST_FORWARD:"@, mem + seq![':'] + at, pushed),
    ensures
        lifts_pull(BackendError::Other(pulled), out) ==> (out matches EngineError::LocalDivergence {
            mem: n,
            remote_ref,
        } && n@ == mem && remote_ref@ == at),
        lifts_push(remote, BackendError::Other(pushed), out) ==> (out
            matches EngineError::NonFastForward { mem: n, remote: r } && n@ == mem && r@ == at),
{
    reveal_strlit("LOCAL_DIVERGENCE:");
    reveal_strlit("NON_FAST_FORWARD:");
    reveal_strlit("UNKNOWN_REMOTE:");
    let payload = mem + seq![':'] + at;
    lemma_marked("LOCAL_DIVERGENCE:"@, payload, pulled);
    lemma_marked("NON_FAST_FORWARD:"@, payload, pushed);
    lemma_unmarked("LOCAL_DIVERGENCE:"@, "UNKNOWN_REMOTE:"@, pulled);
    lemma_unmarked("NON_FAST_FORWARD:"@, "UNKNOWN_REMOTE:"@, pushed);
    lemma_payload(mem, at, "refs/remotes/?/?"@);
    lemma_payload(mem, at, remote);
}

/// Any other refusal is handed on as the backend gave it.
pub proof fn law_other_refusals_are_handed_on(
    m: String,
    remote: Seq<char>,
    mem: Seq<char>,
    target: Seq<char>,
    out: EngineError,
)
    requires
        m@.len() > 0 ==> m@[0] != 'U' && m@[0] != 'L' && m@[0] != 'N' && m@[0] != 'P',
        lifts_remote(BackendError::Other(m), out) || lifts_ref(BackendError::Other(m), out)
            || lifts_pull(BackendError::Other(m), out) || lifts_push(
            remote,
            BackendError::Other(m),
            out,
        ) || lifts_reset(mem, target, BackendError::Other(m), out),
    ensures
        out matches EngineError::Backend(BackendError::Other(n)) && n == m,
{
    reveal_strlit("UNKNOWN_REMOTE:");
    reveal_strlit("UNKNOWN_REF:");
    reveal_strlit("LOCAL_DIVERGENCE:");
    reveal_strlit("NON_FAST_FORWARD:");
    reveal_strlit("PUSHED_COMMITS_PROTECTED:");
    lemma_not_started(m@, "UNKNOWN_REMOTE:"@);
    lemma_not_started(m@, "UNKNOWN_REF:"@);
    lemma_not_started(m@, "LOCAL_DIVERGENCE:"@);
    lemma_not_started(m@, "NON_FAST_FORWARD:"@);
    lemma_not_started(m@, "PUSHED_COMMITS_PROTECTED:"@);
}

/// A text does not begin with what begins otherwise.
proof fn lemma_not_started(s: Seq<char>, p: Seq<char>)
    requires
        p.len() > 0,
        s.len() > 0 ==> s[0] != p[0],
    ensures
        !starts(s, p),
{
    if starts(s, p) {
        assert(s.subrange(0, p.len() as int)[0] == p[0]);
    }
}

/// A list with commas between its parts is read back, where no part is empty,
/// holds a comma or has blanks at its ends.
pub proof fn law_list_reads_back(parts: Seq<Seq<char>>)
    requires
        forall|i: int| 0 <= i < parts.len() ==> is_list_part(#[trigger] parts[i]),
    ensures
        listed_parts(join(parts, seq![',']), 0) == parts,
{
    if parts.len() == 0 {
        let s = join(parts, seq![',']);
        assert(s =~= Seq::empty());
        assert(next_char(s, ',', 0) == 0);
        assert(s.subrange(0, 0) =~= Seq::empty());
        assert(listed_parts(s, 1) =~= Seq::empty());
        assert(listed_parts(s, 0) =~= parts);
    } else {
        lemma_listed(Seq::empty(), parts);
        assert(Seq::<char>::empty() + join(parts, seq![',']) =~= join(parts, seq![',']));
    }
}

/// Whether a text can be a part of a list.
pub open spec fn is_list_part(s: Seq<char>) -> bool {
    s.len() > 0 && !s.contains(',') && !is_space(s[0]) && !is_space(s.last())
}

/// A list behind a text is read back from there.
#[verifier::rlimit(40)]
proof fn lemma_listed(front: Seq<char>, parts: Seq<Seq<char>>)
    requires
        parts.len() > 0,
        forall|i: int| 0 <= i < parts.len() ==> is_list_part(#[trigger] parts[i]),
    ensures
        listed_parts(front + join(parts, seq![',']), front.len() as int) == parts,
    decreases parts.len(),
{
    let s = front + join(parts, seq![',']);
    let from = front.len() as int;
    let first = parts[0];
    let end = from + first.len();
    assert(is_list_part(first));
    lemma_join_first(parts);
    assert(forall|j: int| from <= j < end ==> s[j] == first[j - from]);
    assert forall|j: int| from <= j < end implies s[j] != ',' by {
        assert(first.contains(first[j - from]));
    }
    lemma_next_char_skips(s, ',', from, end);
    if parts.len() == 1 {
        assert(s.len() == end);
        assert(next_char(s, ',', from) == end);
        assert(s.subrange(from, end) =~= first);
        assert(trim(first) == first);
        assert(listed_parts(s, end + 1) =~= Seq::empty());
        assert(listed_parts(s, from) =~= seq![first] + Seq::<Seq<char>>::empty());
        assert(parts =~= seq![first]);
    } else {
        assert(s[end] == ',');
        assert(next_char(s, ',', from) == end);
        assert(s.subrange(from, end) =~= first);
        assert(trim(first) == first);
        let rest = parts.drop_first();
        assert forall|i: int| 0 <= i < rest.len() implies is_list_part(#[trigger] rest[i]) by {
            assert(rest[i] == parts[i + 1]);
        }
        let next = front + first + seq![','];
        assert(s =~= next + join(rest, seq![',']));
        lemma_listed(next, rest);
        assert(listed_parts(s, from) == seq![first] + listed_parts(s, end + 1));
        assert(parts =~= seq![first] + rest);
    }
}

/// A joined list from its first part on.
proof fn lemma_join_first(parts: Seq<Seq<char>>)
    requires
        parts.len() > 0,
    ensures
        parts.len() == 1 ==> join(parts, seq![',']) == parts[0],
        parts.len() > 1 ==> join(parts, seq![',']) == parts[0] + seq![','] + join(
            parts.drop_first(),
            seq![','],
        ),
    decreases parts.len(),
{
    if parts.len() > 1 {
        let head = parts.drop_last();
        lemma_join_first(head);
        assert(head[0] == parts[0]);
        let rest = parts.drop_first();
        assert(rest.last() == parts.last());
        if parts.len() == 2 {
            assert(rest =~= seq![parts.last()]);
            assert(head =~= seq![parts[0]]);
        } else {
            assert(rest.drop_last() =~= head.drop_first());
            assert(join(parts, seq![',']) =~= parts[0] + seq![','] + join(rest, seq![',']));
        }
    }
}

/// A reset that would lose commits that were pushed is told with the target and
/// with every one of them.
#[verifier::rlimit(40)]
pub proof fn law_pushed_commits_are_told(
    mem: Seq<char>,
    target: Seq<char>,
    shas: Seq<Seq<char>>,
    m: String,
    out: EngineError,
)
    requires
        shas.len() > 0,
        forall|i: int| 0 <= i < shas.len() ==> is_list_part(#[trigger] shas[i]),
        marked_text("PUSHED_COMMITS_PROTECTED:"@, join(shas, seq![',']), m),
        lifts_reset(mem, target, BackendError::Other(m), out),
    ensures
        out matches EngineError::PushedCommitsProtected { mem: n, target_sha, pushed_shas } && n@
            == mem && target_sha@ == target && texts(pushed_shas@) == shas,
{
    reveal_strlit("PUSHED_COMMITS_PROTECTED:");
    reveal_strlit("UNKNOWN_REF:");
    let list = join(shas, seq![',']);
    lemma_marked("PUSHED_COMMITS_PROTECTED:"@, list, m);
    assert(m@.subrange(0, 25) =~= "PUSHED_COMMITS_PROTECTED:"@);
    lemma_unmarked("PUSHED_COMMITS_PROTECTED:"@, "UNKNOWN_REF:"@, m);
    law_list_reads_back(shas);
    lemma_join_ends(shas);
    assert(is_list_part(shas[0]) && is_list_part(shas[shas.len() - 1]));
    assert(trim(list) == list);
}

/// Where a joined list begins and ends.
proof fn lemma_join_ends(parts: Seq<Seq<char>>)
    requires
        parts.len() > 0,
        forall|i: int| 0 <= i < parts.len() ==> is_list_part(#[trigger] parts[i]),
    ensures
        join(parts, seq![',']).len() > 0,
        join(parts, seq![','])[0] == parts[0][0],
        join(parts, seq![',']).last() == parts.last().last(),
    decreases parts.len(),
{
    assert(is_list_part(parts[0]));
    assert(is_list_part(parts[parts.len() - 1]));
    if parts.len() > 1 {
        let head = parts.drop_last();
        assert forall|i: int| 0 <= i < head.len() implies is_list_part(#[trigger] head[i]) by {
            assert(head[i] == parts[i]);
        }
        lemma_join_ends(head);
        assert(head[0] == parts[0]);
    }
}

// ---------------------------------------------------------------------
// What a success leaves
// ---------------------------------------------------------------------

/// Whether the head of a mem moved and everyone is to be told: the mem is known
/// at the new head, every other mount is as it was, and where the head is
/// another, one more event waits that tells of it.
pub open spec fn is_moved<B, H>(
    pre: Engine<B, H>,
    post: Engine<B, H>,
    mem: Seq<char>,
    previous: Seq<char>,
    head: Seq<char>,
) -> bool {
    &&& post.store == pre.store
    &&& post.mounts@.len() == pre.mounts@.len()
    &&& forall|k: int|
        0 <= k < pre.mounts@.len() && pre.mount_at(mem) != Some(k) ==> (#[trigger] post.mounts@[k])
            == pre.mounts@[k]
    &&& if previous == head {
        post.pending_events == pre.pending_events && post.known_head(mem) == pre.known_head(mem)
    } else {
        &&& post.known_head(mem) == Some(head)
        &&& post.pending_events@.len() == pre.pending_events@.len() + 1
        &&& post.pending_events@.drop_last() == pre.pending_events@
        &&& post.pending_events@.last().vault@ == mem
        &&& post.pending_events@.last().head@ == head
        &&& post.pending_events@.last().previous@ == previous
    }
}

/// A moved head.
proof fn lemma_moved<B, H>(
    pre: Engine<B, H>,
    mid: Engine<B, H>,
    post: Engine<B, H>,
    at: int,
    mem: Seq<char>,
    previous: Seq<char>,
    head: Seq<char>,
)
    requires
        pre.mount_at(mem) == Some(at),
        mid == (Engine { host: mid.host, ..pre }),
        head_moves(mid, post, at, mem, previous, head),
    ensures
        is_moved(pre, post, mem, previous, head),
        post.host == mid.host,
{
    lemma_mount_index(pre.mounts@, mem, 0);
    if previous != head {
        lemma_place_stays(pre.mounts@, post.mounts@, mem, 0);
    }
}

/// Where mounts keep their mems, the mount of a mem stays where it is.
proof fn lemma_place_stays<B>(
    a: Seq<MountedBackend<B>>,
    b: Seq<MountedBackend<B>>,
    mem: Seq<char>,
    i: int,
)
    requires
        0 <= i,
        a.len() == b.len(),
        forall|k: int| 0 <= k < a.len() ==> (#[trigger] a[k]).mount == b[k].mount,
    ensures
        mount_index(a, mem, i) == mount_index(b, mem, i),
    decreases a.len() - i,
{
    if i < a.len() {
        lemma_place_stays(a, b, mem, i + 1);
        assert(a[i].mount == b[i].mount);
    }
}

/// A pull that went well asked for a fetch and then for the pull of the mem,
/// and nothing else; the tree that was fetched is in order; and the mem's head
/// moved to where the host pulled it.
#[verifier::rlimit(40)]
pub proof fn law_pull_moves_the_head<B, H: Host>(
    pre: Engine<B, H>,
    mem: Seq<char>,
    remote: Seq<char>,
    post: Engine<B, H>,
    o: PullOutcome,
)
    requires
        pulls(pre, mem, remote, post, Ok::<PullOutcome, EngineError>(o)),
    ensures
        repo_of(pre, mem) is Some,
        post.host.calls() == pre.host.calls() + seq![
            HostCall::Fetch {
                gitdir: repo_of(pre, mem)->0,
                remote,
                refspecs: Seq::empty(),
            },
            HostCall::Pull { gitdir: repo_of(pre, mem)->0, remote, mem },
        ],
        is_moved(pre, post, mem, o.previous_sha@, o.new_sha@),
        exists|files: Vec<SourceEntry>, schema: std::sync::Arc<crate::schema::Schema>|
            schema_of(pre.schemas@, mem) == Some(schema) && #[trigger] tree_stands(
                &pre.host,
                mem,
                schema,
                views(files@),
            ) && tree_reply(
                &pre.host,
                repo_of(pre, mem)->0,
                "refs/remotes/"@ + remote + "/"@ + mem,
                Some(Ok::<Vec<SourceEntry>, BackendError>(files)),
            ),
{
    let r = Ok::<PullOutcome, EngineError>(o);
    let at = pre.mount_at(mem)->0;
    let gitdir = repo_of(pre, mem)->0;
    let ref_name = "refs/remotes/"@ + remote + "/"@ + mem;
    let (fetched, mid) = choose|
        fetched: Option<Result<FetchOutcome, BackendError>>,
        mid: Engine<B, H>,
    |
        #![trigger fetch_reply(&pre.host, gitdir, remote, Seq::empty(), fetched), asked(pre, mid, seq![fetch_all(gitdir, remote)])]
        fetch_reply(&pre.host, gitdir, remote, Seq::empty(), fetched) && asked(
            pre,
            mid,
            seq![fetch_all(gitdir, remote)],
        ) && match fetched {
            Some(Ok(_)) => pulls_fetched(mid, at, gitdir, mem, remote, post, r),
            _ => false,
        };
    let valid = choose|valid: Result<(), EngineError>| #[trigger]
        checks_ref(mid, gitdir, mem, ref_name, valid) && match valid {
            Err(e) => false,
            Ok(_) => pulls_valid(mid, at, gitdir, mem, remote, post, r),
        };
    let nothing = valid->Ok_0;
    assert(nothing == ());
    assert(valid == Ok::<(), EngineError>(nothing));
    law_accepted_tree_is_in_order(mid, gitdir, mem, ref_name);
    let files = choose|files: Vec<SourceEntry>| #[trigger]
        tree_reply(
            &mid.host,
            gitdir,
            ref_name,
            Some(Ok::<Vec<SourceEntry>, BackendError>(files)),
        ) && (schema_of(mid.schemas@, mem) matches Some(schema) && tree_stands(
            &mid.host,
            mem,
            schema,
            views(files@),
        ));
    let schema = schema_of(mid.schemas@, mem)->0;
    lemma_same_standing(&mid.host, &pre.host, mem, schema, views(files@));
    assert(tree_reply(
        &pre.host,
        gitdir,
        ref_name,
        Some(Ok::<Vec<SourceEntry>, BackendError>(files)),
    ));
    let (pulled, late) = choose|
        pulled: Option<Result<PullOutcome, BackendError>>,
        late: Engine<B, H>,
    |
        #![trigger pull_reply(&mid.host, gitdir, remote, mem, pulled), asked(mid, late, seq![HostCall::Pull { gitdir, remote, mem }])]
        pull_reply(&mid.host, gitdir, remote, mem, pulled) && asked(
            mid,
            late,
            seq![HostCall::Pull { gitdir, remote, mem }],
        ) && match pulled {
            Some(Ok(o2)) => r == Ok::<PullOutcome, EngineError>(o2) && head_moves(
                late,
                post,
                at,
                mem,
                o2.previous_sha@,
                o2.new_sha@,
            ),
            _ => false,
        };
    lemma_moved(pre, late, post, at, mem, o.previous_sha@, o.new_sha@);
    assert(post.host.calls() =~= pre.host.calls() + seq![
        HostCall::Fetch { gitdir, remote, refspecs: Seq::empty() },
        HostCall::Pull { gitdir, remote, mem },
    ]);
}

/// Surroundings over the same host find the same trees in order.
proof fn lemma_same_standing<H: Host>(
    a: &Surroundings<H>,
    b: &Surroundings<H>,
    mem: Seq<char>,
    schema: std::sync::Arc<crate::schema::Schema>,
    files: Seq<(Seq<char>, Seq<char>)>,
)
    requires
        a.inner() == b.inner(),
        tree_stands(a, mem, schema, files),
    ensures
        tree_stands(b, mem, schema, files),
{
    let load = choose|load: crate::host::LoadResult| #[trigger]
        crate::host::parse_reply(a, files, Seq::empty(), mem, schema, Seq::empty(), load)
            && load.errors@.len() == 0 && forall|i: int|
            0 <= i < files.len() ==> crate::drift_laws::file_stands(
                a,
                #[trigger] files[i],
                load.entities@,
                schema,
            );
    assert(crate::host::parse_reply(b, files, Seq::empty(), mem, schema, Seq::empty(), load));
    let es = load.entities@;
    assert forall|i: int| 0 <= i < files.len() implies crate::drift_laws::file_stands(
        b,
        #[trigger] files[i],
        es,
        schema,
    ) by {
        assert(crate::drift_laws::file_stands(a, files[i], es, schema));
        if exists|k: int| 0 <= k < es.len() && (#[trigger] es[k]).file_path@ == files[i].0 {
            let k = choose|k: int|
                0 <= k < es.len() && (#[trigger] es[k]).file_path@ == files[i].0 && (
                schema.type_named(es[k].entity_type@) matches Some(t)
                    && crate::host::strict_reply(a, files[i].1, es[k], t, files[i].0, Ok(())));
            let t = schema.type_named(es[k].entity_type@)->0;
            assert(crate::host::strict_reply(b, files[i].1, es[k], t, files[i].0, Ok(())));
            assert(es[k].file_path@ == files[i].0);
        }
    }
}

/// A reset that went well asked for the reset of the mem's branch to the
/// target, and nothing else, and the mem's head moved to where the host put
/// it.
pub proof fn law_reset_moves_the_head<B, H: Host>(
    pre: Engine<B, H>,
    mem: Seq<char>,
    target: Seq<char>,
    post: Engine<B, H>,
    o: BranchResetOutcome,
)
    requires
        resets(pre, mem, target, post, Ok::<BranchResetOutcome, EngineError>(o)),
    ensures
        pre.mount_of(mem) matches Some(m) && (m.mount.storage matches MountStorage::GitBranch {
            gitdir,
            branch,
        } && post.host.calls() == pre.host.calls() + seq![
            HostCall::Reset { gitdir: gitdir@, branch: branch@, target },
        ]),
        is_moved(pre, post, mem, o.previous_sha@, o.new_sha@),
{
    let r = Ok::<BranchResetOutcome, EngineError>(o);
    let at = pre.mount_at(mem)->0;
    if let MountStorage::GitBranch { gitdir, branch } = pre.mounts@[at].mount.storage {
        let (reply, mid) = choose|
            reply: Option<Result<BranchResetOutcome, BackendError>>,
            mid: Engine<B, H>,
        |
            #![trigger reset_reply(&pre.host, gitdir@, branch@, target, reply), asked(pre, mid, seq![HostCall::Reset { gitdir: gitdir@, branch: branch@, target }])]
            reset_reply(&pre.host, gitdir@, branch@, target, reply) && asked(
                pre,
                mid,
                seq![HostCall::Reset { gitdir: gitdir@, branch: branch@, target }],
            ) && match reply {
                Some(Ok(o2)) => r == Ok::<BranchResetOutcome, EngineError>(o2) && head_moves(
                    mid,
                    post,
                    at,
                    mem,
                    o2.previous_sha@,
                    o2.new_sha@,
                ),
                _ => false,
            };
        lemma_moved(pre, mid, post, at, mem, o.previous_sha@, o.new_sha@);
    }
}

/// A fetch asks for just what it was asked for, and a push pushes just the mem,
/// by force only where it was told to; both leave the engine as it was.
pub proof fn law_fetch_and_push_ask_as_told<B, H: Host>(
    pre: Engine<B, H>,
    mem: Seq<char>,
    remote: Seq<char>,
    refspecs: Seq<Seq<char>>,
    force: bool,
    fetched: Engine<B, H>,
    f: FetchOutcome,
    pushed: Engine<B, H>,
    p: PushOutcome,
)
    requires
        fetches(pre, mem, remote, refspecs, fetched, Ok::<FetchOutcome, EngineError>(f)),
        pushes(pre, mem, remote, force, pushed, Ok::<PushOutcome, EngineError>(p)),
    ensures
        repo_of(pre, mem) is Some,
        fetched.host.calls() == pre.host.calls() + seq![
            HostCall::Fetch { gitdir: repo_of(pre, mem)->0, remote, refspecs },
        ],
        fetched == (Engine { host: fetched.host, ..pre }),
        pushed.host.calls() == pre.host.calls() + seq![
            HostCall::Push { gitdir: repo_of(pre, mem)->0, remote, mem, force },
        ],
        pushed == (Engine { host: pushed.host, ..pre }),
{
}

// ---------------------------------------------------------------------
// Names and arguments
// ---------------------------------------------------------------------

/// The mems whose heads are asked for are those that are mounted, or the one
/// that was named.
pub proof fn law_probed_mems_are_mounted<B>(
    mounts: Seq<MountedBackend<B>>,
    wanted: Option<Seq<char>>,
    mem: Seq<char>,
)
    ensures
        probed_mems(mounts, wanted).contains(mem) <==> (exists|k: int|
            0 <= k < mounts.len() && (#[trigger] mounts[k]).mount.mem@ == mem) && (wanted
            matches Some(w) ==> w == mem),
    decreases mounts.len(),
{
    let all = probed_mems(mounts, wanted);
    if mounts.len() > 0 {
        let head = mounts.drop_last();
        let rest = probed_mems(head, wanted);
        let n = mounts.len() - 1;
        law_probed_mems_are_mounted(head, wanted, mem);
        if all.contains(mem) {
            let k = choose|k: int| 0 <= k < all.len() && all[k] == mem;
            if k < rest.len() {
                assert(rest[k] == mem);
                assert(rest.contains(mem));
                let i = choose|i: int| 0 <= i < head.len() && (#[trigger] head[i]).mount.mem@ == mem;
                assert(mounts[i] == head[i]);
            } else {
                assert(mounts[n].mount.mem@ == mem);
            }
        }
        if (exists|k: int| 0 <= k < mounts.len() && (#[trigger] mounts[k]).mount.mem@ == mem) && (
        wanted matches Some(w) ==> w == mem) {
            let i = choose|i: int| 0 <= i < mounts.len() && (#[trigger] mounts[i]).mount.mem@ == mem;
            if i < n {
                assert(head[i] == mounts[i]);
                let k = choose|k: int| 0 <= k < rest.len() && rest[k] == mem;
                assert(all[k] == mem);
            } else {
                assert(all[rest.len() as int] == mem);
            }
        }
    }
}

/// The repository that remotes are added to is that of the first mount in one.
pub proof fn law_first_repository_is_found<B>(mounts: Seq<MountedBackend<B>>, i: int)
    requires
        0 <= i <= mounts.len(),
    ensures
        match repo_from(mounts, i) {
            Some(dir) => exists|k: int|
                i <= k < mounts.len() && ((#[trigger] mounts[k]).mount.storage
                    matches MountStorage::GitBranch { gitdir, branch } && gitdir@ == dir)
                    && forall|j: int|
                    i <= j < k ==> !((#[trigger] mounts[j]).mount.storage is GitBranch),
            None => forall|j: int|
                i <= j < mounts.len() ==> !((#[trigger] mounts[j]).mount.storage is GitBranch),
        },
    decreases mounts.len() - i,
{
    if i < mounts.len() {
        law_first_repository_is_found(mounts, i + 1);
        if mounts[i].mount.storage is GitBranch {
            assert(mounts[i].mount.storage is GitBranch);
        } else if let Some(dir) = repo_from(mounts, i + 1) {
            let k = choose|k: int|
                i + 1 <= k < mounts.len() && ((#[trigger] mounts[k]).mount.storage
                    matches MountStorage::GitBranch { gitdir, branch } && gitdir@ == dir)
                    && forall|j: int|
                    i + 1 <= j < k ==> !((#[trigger] mounts[j]).mount.storage is GitBranch);
            assert(mounts[k].mount.storage is GitBranch);
        }
    }
}

/// An argument can be handed to a command just where it holds something and
/// cannot be taken for an option.
pub proof fn law_plain_argument_is_no_option(s: Seq<char>)
    ensures
        is_plain_argument(s) <==> s.len() > 0 && s[0] != '-',
{
    reveal_strlit("-");
    if s.len() > 0 {
        assert(s.subrange(0, 1)[0] == s[0]);
        if s[0] == '-' {
            assert(s.subrange(0, 1) =~= "-"@);
        }
    }
}

/// A mem has drifted just where the storage tells of a head and it is another
/// than the one at which the mem is known.
pub proof fn law_drift_is_another_head<B: MemBackend, H>(
    engine: Engine<B, H>,
    mem: Seq<char>,
    r: Result<bool, EngineError>,
)
    requires
        tells_drift(engine, mem, r),
        engine.mount_of(mem) is Some,
    ensures
        r is Ok,
        (forall|reply: Result<Option<String>, BackendError>| #[trigger]
            head_reply(&engine.mount_of(mem)->0.backend, reply) ==> (reply matches Ok(Some(h))
                && Some(h@) != engine.known_head(mem))) ==> r == Ok::<bool, EngineError>(true),
        (forall|reply: Result<Option<String>, BackendError>| #[trigger]
            head_reply(&engine.mount_of(mem)->0.backend, reply) ==> (reply matches Ok(Some(h))
                ==> Some(h@) == engine.known_head(mem))) ==> r == Ok::<bool, EngineError>(false),
{
}

/// What a reset is said to strand is just the edges that entities of other mems
/// hold to what came since the target.
pub proof fn law_reset_tells_what_it_strands<B, H: Host>(
    engine: Engine<B, H>,
    mem: Seq<char>,
    target: Seq<char>,
    v: Vec<StrandedCrossMemRef>,
)
    requires
        tells_stranded(engine, mem, target, Ok::<Vec<StrandedCrossMemRef>, EngineError>(v)),
    ensures
        exists|report: ChangesReport| #[trigger]
            tells_changes(
                engine,
                mem,
                target,
                Similarity::Default,
                Ok::<ChangesReport, EngineError>(report),
            ) && forall|x: StrandedView| #[trigger]
                views(v@).contains(x) <==> is_stranded(
                    engine.store.entities@,
                    mem,
                    report.changes@,
                    x,
                ),
{
    let report = choose|report: ChangesReport| #[trigger]
        tells_changes(
            engine,
            mem,
            target,
            Similarity::Default,
            Ok::<ChangesReport, EngineError>(report),
        ) && views(v@) == crate::drift::stranded(
            engine.store.entities@,
            mem,
            report.changes@,
        );
    assert forall|x: StrandedView| #[trigger] views(v@).contains(x) <==> is_stranded(
        engine.store.entities@,
        mem,
        report.changes@,
        x,
    ) by {
        law_stranded_is_what_points_there(engine.store.entities@, mem, report.changes@, x);
    }
}

/// A remote whose name or address is empty or could be taken for an option is
/// refused and nothing is asked; any other is added to the first repository
/// that is mounted, under that name and address.
pub proof fn law_remote_is_added_as_named<B, H: Host>(
    pre: Engine<B, H>,
    name: Seq<char>,
    url: Seq<char>,
    post: Engine<B, H>,
    r: Result<RemoteAddOutcome, EngineError>,
)
    requires
        adds_named_remote(pre, name, url, post, r),
    ensures
        name.len() == 0 || name[0] == '-' || url.len() == 0 || url[0] == '-' ==> post == pre && r
            is Err,
        r is Ok ==> exists|gitdir: Seq<char>|
            repo_from(pre.mounts@, 0) == Some(gitdir) && post.host.calls()
                == #[trigger] pre.host.calls().push(HostCall::RemoteAdd { gitdir, name, url }),
{
    law_plain_argument_is_no_option(name);
    law_plain_argument_is_no_option(url);
    if r is Ok {
        let gitdir = repo_from(pre.mounts@, 0)->0;
        assert(pre.host.calls() + seq![HostCall::RemoteAdd { gitdir, name, url }]
            =~= pre.host.calls().push(HostCall::RemoteAdd { gitdir, name, url }));
    }
}

/// A diff is what the repository of the mem answers for the two refs, in the
/// order in which they were given, under the settings that were given. A mem
/// that is not mounted, or not on a branch, has none.
pub proof fn law_diff_is_between_the_two_refs<B, H: Host>(
    engine: Engine<B, H>,
    mem: Seq<char>,
    ref_a: Seq<char>,
    ref_b: Seq<char>,
    config: DiffConfig,
    r: Result<Diff, EngineError>,
)
    requires
        diffs(engine, mem, ref_a, ref_b, config, r),
    ensures
        r matches Ok(d) ==> (engine.mount_of(mem) matches Some(m) && (m.mount.storage
            matches MountStorage::GitBranch { gitdir, .. } && diff_reply(
            &engine.host,
            gitdir@,
            mem,
            ref_a,
            ref_b,
            config,
            Some(Ok::<Diff, BackendError>(d)),
        ))),
        config.rename_similarity is OutOfRange && engine.mount_of(mem) is Some ==> r
            matches Err(EngineError::RenameSimilarityOutOfRange { .. }),
        engine.mount_of(mem) matches Some(m) ==> !(config.rename_similarity is OutOfRange) && !(
        m.mount.storage is GitBranch) ==> r matches Err(EngineError::InvalidInput(_)),
        (engine.mount_of(mem) matches Some(m) && !(config.rename_similarity is OutOfRange) && (
        m.mount.storage matches MountStorage::GitBranch { gitdir, .. } && forall|
            reply: Option<Result<Diff, BackendError>>,
        | #[trigger]
            diff_reply(&engine.host, gitdir@, mem, ref_a, ref_b, config, reply) ==> reply
                matches Some(Ok(_)))) ==> r is Ok,
{
}

/// A diff without settings detects renames at the default similarity.
pub proof fn law_diff_settings_default(given: DiffConfig, c: DiffConfig)
    ensures
        is_config(Some(given), c) ==> c == given,
        is_config(None, c) ==> c.rename_similarity is Default && c.settings@.len() == 0,
{
}

} // verus!
