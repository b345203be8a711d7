//! What holds of checks: what a record tells, what it is read back as, and
//! which findings and transitions are let through.

use crate::backend::{Actor, ClientId};
use crate::check::{
    names_kind, pinned_state_of, state_of, CheckFinding, CheckKind, CheckRecord, CheckState,
    FOREIGN_KIND_PREFIX, RecordKind, SealedCheck, Verdict,
};
use crate::check_ops::{
    answers_finding, carried_count, carries_across, carries_rename, entity_in, foreign_latest,
    gate_answered, gate_kind, has_engine_shape, is_foreign, is_record, is_subject, is_unsealed,
    judges_finding, latest_of, law_foreign_checks_are_the_newest, licensed, licenses, lists_kind,
    records_check, records_subject, sealed_at, tells_latest, tells_state, took_record, Subject,
};
use crate::engine::Engine;
use crate::entity::{meta_value, Entity, MetadataValue};
use crate::error::EngineError;
use crate::host::{confirms_reply, finding_reply, now_reply, Host, HostCall, Surroundings};
use crate::schema::ConstraintDef;
use crate::text::{opt_text, starts, trim};
use crate::workspace::MountCapability;
use vstd::prelude::*;

verus! {

// ---------------------------------------------------------------------
// States
// ---------------------------------------------------------------------

/// Where an entity stands follows from its newest record alone: without one it
/// was never checked; one of other content is stale; one of this content says
/// what its verdict says. A check that binds to a pin is stale under another
/// pin too.
pub proof fn law_state_follows_from_the_record(
    rec: CheckRecord,
    current: Seq<char>,
    pin: Option<Seq<char>>,
)
    ensures
        state_of(None, current) == CheckState::NeverChecked,
        pinned_state_of(None, current, pin) == CheckState::NeverChecked,
        rec.entity_hash@ != current ==> state_of(Some(rec), current) == CheckState::CheckStale
            && pinned_state_of(Some(rec), current, pin) == CheckState::CheckStale,
        opt_text(rec.schema_ref) != pin ==> pinned_state_of(Some(rec), current, pin)
            == CheckState::CheckStale,
        rec.entity_hash@ == current && rec.verdict@ == seq!['o', 'k'] ==> state_of(
            Some(rec),
            current,
        ) == CheckState::CheckedOk,
        rec.entity_hash@ == current && rec.verdict@ != seq!['o', 'k'] ==> state_of(
            Some(rec),
            current,
        ) == CheckState::CheckFailed,
        opt_text(rec.schema_ref) == pin ==> pinned_state_of(Some(rec), current, pin) == state_of(
            Some(rec),
            current,
        ),
{
    reveal_strlit("ok");
    assert("ok"@ =~= seq!['o', 'k']);
}

/// The newest record of an entity under a kind is the last of them.
pub proof fn law_newest_record_is_the_last(recs: Seq<CheckRecord>, id: Seq<char>, kind: Seq<char>)
    ensures
        match latest_of(recs, id, kind) {
            Some(r) => exists|k: int|
                0 <= k < recs.len() && #[trigger] recs[k] == r && is_of(r, id, kind) && forall|
                    j: int,
                |
                    k < j < recs.len() ==> !is_of(#[trigger] recs[j], id, kind),
            None => forall|j: int| 0 <= j < recs.len() ==> !is_of(#[trigger] recs[j], id, kind),
        },
    decreases recs.len(),
{
    if recs.len() > 0 {
        let head = recs.drop_last();
        let n = recs.len() - 1;
        law_newest_record_is_the_last(head, id, kind);
        if is_of(recs[n], id, kind) {
            assert(recs[n] == recs.last());
        } else if let Some(r) = latest_of(head, id, kind) {
            let k = choose|k: int|
                0 <= k < head.len() && #[trigger] head[k] == r && is_of(r, id, kind) && forall|
                    j: int,
                |
                    k < j < head.len() ==> !is_of(#[trigger] head[j], id, kind);
            assert(recs[k] == r);
            assert forall|j: int| k < j < recs.len() implies !is_of(
                #[trigger] recs[j],
                id,
                kind,
            ) by {
                if j < n {
                    assert(recs[j] == head[j]);
                }
            }
        } else {
            assert forall|j: int| 0 <= j < recs.len() implies !is_of(
                #[trigger] recs[j],
                id,
                kind,
            ) by {
                if j < n {
                    assert(recs[j] == head[j]);
                }
            }
        }
    }
}

/// Whether a record is of an entity and of a kind; one without a kind is a
/// verification.
pub open spec fn is_of(rec: CheckRecord, id: Seq<char>, kind: Seq<char>) -> bool {
    rec.entity@ == id && kind == (match rec.kind {
        Some(k) => k@,
        None => "verification"@,
    })
}

// ---------------------------------------------------------------------
// Recording
// ---------------------------------------------------------------------

/// Whether an entity of a mem is in the store.
pub open spec fn is_stored(
    entities: Seq<Entity>,
    mem: Seq<char>,
    id: Seq<char>,
    e: Entity,
) -> bool {
    entities.contains(e) && e.mem@ == mem && e.id.0@ == id
}

/// The entity of a mem that is found is one of the store.
proof fn lemma_entity_in(entities: Seq<Entity>, mem: Seq<char>, id: Seq<char>, i: int)
    requires
        0 <= i,
    ensures
        match entity_in(entities, mem, id, i) {
            Some(e) => is_stored(entities, mem, id, e),
            None => forall|j: int|
                i <= j < entities.len() ==> !((#[trigger] entities[j]).mem@ == mem
                    && entities[j].id.0@ == id),
        },
    decreases entities.len() - i,
{
    if i < entities.len() {
        if entities[i].mem@ == mem && entities[i].id.0@ == id {
            assert(entities.contains(entities[i]));
        } else {
            lemma_entity_in(entities, mem, id, i + 1);
        }
    }
}

/// Whether a record tells what was asked to be recorded.
pub open spec fn tells_the_request(
    rec: CheckRecord,
    id: Seq<char>,
    verdict: Verdict,
    kind: RecordKind,
    finding: Option<CheckFinding>,
    actor: Actor,
    role: Option<String>,
    identity: Option<String>,
) -> bool {
    &&& rec.entity@ == id
    &&& rec.verdict@ == (match verdict {
        Verdict::Passed => "ok"@,
        Verdict::Failed => "failed"@,
    })
    &&& is_of(
        rec,
        id,
        match kind {
            RecordKind::Engine(CheckKind::Verification) => "verification"@,
            RecordKind::Engine(CheckKind::Conformance) => "conformance"@,
            RecordKind::Foreign(s) => s@,
        },
    )
    &&& rec.finding == finding
    &&& rec.actor@ == (match actor {
        Actor::Agent => "agent"@,
        Actor::Cli => "cli"@,
    })
    &&& (role matches Some(r) ==> rec.role@ == r@)
    &&& (role is None ==> rec.role@ == "unspecified"@)
    &&& rec.identity == identity
    &&& rec.renamed_from is None
    &&& rec.carried_from is None
}

/// A check that was recorded tells what was asked: of the entity, the verdict,
/// the kind, the finding and who asked. It holds the hash of an entity that the
/// store has under the id, in a mem that is mounted for writing. One of
/// conformance holds the mem's pin, every other none.
#[verifier::rlimit(40)]
pub proof fn law_record_tells_the_request<B, H: Host>(
    pre: Engine<B, H>,
    mem: Seq<char>,
    id: Seq<char>,
    verdict: Verdict,
    kind: RecordKind,
    method: Option<Seq<char>>,
    finding: Option<CheckFinding>,
    actor: Actor,
    client: Option<&ClientId>,
    post: Engine<B, H>,
    rec: CheckRecord,
)
    requires
        records_check(
            pre,
            mem,
            id,
            verdict,
            kind,
            method,
            finding,
            actor,
            client,
            post,
            Ok::<CheckRecord, EngineError>(rec),
        ),
    ensures
        tells_the_request(
            rec,
            id,
            verdict,
            kind,
            finding,
            actor,
            pre.current_role,
            pre.current_identity,
        ),
        pre.mount_of(mem) matches Some(m) && m.mount.capability == MountCapability::Write,
        exists|e: Entity| #[trigger]
            is_stored(pre.store.entities@, mem, id, e) && rec.entity_hash == e.content_hash,
        kind == RecordKind::Engine(CheckKind::Conformance) ==> (pre.mount_of(mem)->0.mount.schema
            matches Some(s) && opt_text(rec.schema_ref) == Some(s.display())),
        kind != RecordKind::Engine(CheckKind::Conformance) ==> rec.schema_ref is None,
        method matches Some(m) ==> (if trim(m).len() > 0 {
            opt_text(rec.method) == Some(trim(m))
        } else {
            rec.method is None
        }),
        method is None ==> rec.method is None,
        client matches Some(c) ==> opt_text(rec.client) == Some(c.name@ + "@"@ + c.version@),
        client is None ==> rec.client is None,
{
    let r = Ok::<CheckRecord, EngineError>(rec);
    let found = choose|found: Result<(), EngineError>| #[trigger]
        answers_finding(&pre.host, finding, verdict, method, found) && match found {
            Err(e) => false,
            Ok(_) => records_subject(
                pre,
                mem,
                id,
                verdict,
                kind,
                method,
                finding,
                actor,
                client,
                post,
                r,
            ),
        };
    assert(found is Ok);
    let subject = choose|subject: Result<Subject, EngineError>| #[trigger]
        is_subject(pre, mem, id, kind, subject) && match subject {
            Err(e) => false,
            Ok(s) => exists|ts: u64, rec2: CheckRecord, kept: Result<(), String>|
                now_reply(&pre.host, ts) && is_record(
                    pre,
                    s,
                    ts,
                    id,
                    verdict,
                    kind,
                    method,
                    finding,
                    actor,
                    client,
                    rec2,
                ) && #[trigger] took_record(&pre.host, s.root@, ts, rec2, kept) && (match kept {
                    Ok(_) => r == Ok::<CheckRecord, EngineError>(rec2),
                    Err(m) => false,
                }),
        };
    let s = subject->Ok_0;
    lemma_entity_in(pre.store.entities@, mem, id, 0);
    let e = entity_in(pre.store.entities@, mem, id, 0)->0;
    assert(is_stored(pre.store.entities@, mem, id, e));
    assert(s.entity_hash == e.content_hash);
    match kind {
        RecordKind::Engine(CheckKind::Verification) => {},
        RecordKind::Engine(CheckKind::Conformance) => {},
        RecordKind::Foreign(f) => {},
    }
}

/// A check that was recorded reads back as what it said: as the newest of its
/// kind it gives the entity, as long as its content stands, the state that its
/// verdict says, and any other content makes it stale.
pub proof fn law_recorded_check_reads_back(
    recs: Seq<CheckRecord>,
    rec: CheckRecord,
    id: Seq<char>,
    kind: Seq<char>,
    verdict: Verdict,
    current: Seq<char>,
)
    requires
        is_of(rec, id, kind),
        rec.verdict@ == verdict.token(),
    ensures
        latest_of(recs.push(rec), id, kind) == Some(rec),
        state_of(latest_of(recs.push(rec), id, kind), current) == (if rec.entity_hash@ != current {
            CheckState::CheckStale
        } else if verdict == Verdict::Passed {
            CheckState::CheckedOk
        } else {
            CheckState::CheckFailed
        }),
{
    crate::check_ops::law_recorded_check_is_newest(recs, rec, Seq::empty());
    reveal_strlit("ok");
    reveal_strlit("failed");
    assert("ok"@.len() == 2 && "failed"@.len() == 6);
}

/// Recording is refused where there is nothing to record a check of: a mem
/// that is mounted for reading alone, and an id that the mem does not have.
pub proof fn law_check_needs_its_entity<B, H>(
    engine: Engine<B, H>,
    mem: Seq<char>,
    id: Seq<char>,
    kind: RecordKind,
    r: Result<Subject, EngineError>,
)
    requires
        is_subject(engine, mem, id, kind, r),
        engine.mount_of(mem) is Some,
    ensures
        engine.mount_of(mem)->0.mount.capability == MountCapability::ReadOnly ==> (r matches Err(
            EngineError::ReadOnlyMount(m),
        ) && m@ == mem),
        (forall|j: int|
            0 <= j < engine.store.entities@.len() ==> !((#[trigger] engine.store.entities@[j]).mem@
                == mem && engine.store.entities@[j].id.0@ == id)) ==> r is Err,
        r matches Err(EngineError::NotFound { id: i }) ==> i@ == id && forall|j: int|
            0 <= j < engine.store.entities@.len() ==> !((#[trigger] engine.store.entities@[j]).mem@
                == mem && engine.store.entities@[j].id.0@ == id),
        r is Ok ==> engine.workspace_root is Some,
        kind == RecordKind::Engine(CheckKind::Conformance) && engine.mount_of(mem)->0.mount.schema
            is None ==> r is Err,
{
    lemma_entity_in(engine.store.entities@, mem, id, 0);
}

// ---------------------------------------------------------------------
// Findings
// ---------------------------------------------------------------------

/// A code in the engine's spelling must name a condition of the engine, and
/// who acknowledges one that failed must say how it is to be closed. Every
/// other finding is let through: a code in another spelling, and an
/// acknowledgement that passed or names its plan.
pub proof fn law_findings_are_judged(
    code: Seq<char>,
    conditions: Seq<Seq<char>>,
    verdict: Verdict,
    method: Option<Seq<char>>,
    r: Result<(), EngineError>,
)
    requires
        judges_finding(code, conditions, verdict, method, r),
    ensures
        r matches Err(e) ==> e is InvalidCheckFinding,
        !conditions.contains(code) && code.len() > 0 && 'A' <= code[0] <= 'Z' && (forall|i: int|
            0 <= i < code.len() ==> 'A' <= #[trigger] code[i] <= 'Z' || '0' <= code[i] <= '9'
                || code[i] == '_') ==> r is Err,
        !conditions.contains(code) && (exists|i: int|
            0 <= i < code.len() && 'a' <= #[trigger] code[i] <= 'z') ==> r is Ok,
        !conditions.contains(code) && (exists|i: int|
            0 <= i < code.len() && #[trigger] code[i] == '-') ==> r is Ok,
        conditions.contains(code) && verdict == Verdict::Passed ==> r is Ok,
        conditions.contains(code) && verdict == Verdict::Failed ==> (r is Ok <==> (method matches Some(
            m,
        ) && trim(m).len() > 0)),
{
}

/// A finding goes into a record only where the host found nothing against it.
pub proof fn law_recorded_finding_was_accepted<H: Host>(
    h: &Surroundings<H>,
    f: CheckFinding,
    verdict: Verdict,
    method: Option<Seq<char>>,
)
    requires
        answers_finding(h, Some(f), verdict, method, Ok::<(), EngineError>(())),
    ensures
        exists|valid: Result<(), String>| #[trigger] finding_reply(h, f, valid) && valid is Ok,
{
}

// ---------------------------------------------------------------------
// Checks of callers' own kinds
// ---------------------------------------------------------------------

/// A caller's own kinds are those that begin with `x-`. Of each such kind an
/// entity was checked under, its newest record is listed, once; no other
/// record is.
pub proof fn law_own_kinds_are_listed(recs: Seq<CheckRecord>, id: Seq<char>)
    ensures
        FOREIGN_KIND_PREFIX@ == seq!['x', '-'],
        forall|k: int|
            0 <= k < recs.len() && (#[trigger] recs[k]).entity@ == id && (recs[k].kind matches Some(
                kind,
            ) && starts(kind@, seq!['x', '-'])) ==> exists|i: int|
                0 <= i < foreign_latest(recs, id).len() && is_of(
                    #[trigger] foreign_latest(recs, id)[i],
                    id,
                    recs[k].kind->0@,
                ),
        forall|i: int|
            0 <= i < foreign_latest(recs, id).len() ==> (#[trigger] foreign_latest(
                recs,
                id,
            )[i]).entity@ == id && (foreign_latest(recs, id)[i].kind matches Some(kind) && starts(
                kind@,
                seq!['x', '-'],
            )) && recs.contains(foreign_latest(recs, id)[i]),
{
    reveal_strlit("x-");
    assert(FOREIGN_KIND_PREFIX@ =~= seq!['x', '-']);
    law_foreign_checks_are_the_newest(recs, id);
    let list = foreign_latest(recs, id);
    assert forall|k: int|
        0 <= k < recs.len() && (#[trigger] recs[k]).entity@ == id && (recs[k].kind matches Some(
            kind,
        ) && starts(kind@, seq!['x', '-'])) implies exists|i: int|
        0 <= i < list.len() && is_of(#[trigger] list[i], id, recs[k].kind->0@) by {
        assert(is_foreign(recs[k], id));
        assert(lists_kind(list, recs[k].wire_kind()));
        let i = choose|i: int|
            0 <= i < list.len() && (#[trigger] list[i]).wire_kind() == recs[k].wire_kind();
        assert(is_foreign(list[i], id));
        assert(is_of(list[i], id, recs[k].kind->0@));
    }
    assert forall|i: int| 0 <= i < list.len() implies (#[trigger] list[i]).entity@ == id && (
    list[i].kind matches Some(kind) && starts(kind@, seq!['x', '-'])) && recs.contains(list[i]) by {
        assert(is_foreign(list[i], id));
        law_newest_record_is_the_last(recs, id, list[i].wire_kind());
        let k = choose|k: int|
            0 <= k < recs.len() && #[trigger] recs[k] == list[i];
        assert(recs.contains(list[i]));
    }
}

/// The sealed checks of a path are all that were sealed under it, and no
/// others.
pub proof fn law_sealed_checks_of_a_path(sealed: Seq<SealedCheck>, path: Seq<char>)
    ensures
        forall|c: SealedCheck| #[trigger]
            sealed_at(sealed, path).contains(c) <==> sealed.contains(c) && c.path@ == path,
        sealed_at(sealed, path) == sealed.filter(|c: SealedCheck| c.path@ == path),
    decreases sealed.len(),
{
    reveal(Seq::filter);
    let at = |c: SealedCheck| c.path@ == path;
    if sealed.len() > 0 {
        law_sealed_checks_of_a_path(sealed.drop_last(), path);
    }
    assert(sealed_at(sealed, path) == sealed.filter(at));
    assert forall|c: SealedCheck| #[trigger] sealed_at(
        sealed,
        path,
    ).contains(c) <==> sealed.contains(
        c,
    ) && c.path@ == path by {
        let all = sealed_at(sealed, path);
        if sealed.len() > 0 {
            let head = sealed.drop_last();
            let rest = sealed_at(head, path);
            let n = sealed.len() - 1;
            if all.contains(c) {
                let k = choose|k: int| 0 <= k < all.len() && all[k] == c;
                if k < rest.len() {
                    assert(rest[k] == c);
                    assert(rest.contains(c));
                    let i = choose|i: int| 0 <= i < head.len() && head[i] == c;
                    assert(sealed[i] == c);
                } else {
                    assert(sealed[n] == c);
                }
            }
            if sealed.contains(c) && c.path@ == path {
                let k = choose|k: int| 0 <= k < sealed.len() && sealed[k] == c;
                if k < n {
                    assert(head[k] == c);
                    assert(head.contains(c));
                    assert(rest.contains(c));
                    let i = choose|i: int| 0 <= i < rest.len() && rest[i] == c;
                    assert(all[i] == c);
                } else {
                    assert(all[rest.len() as int] == c);
                }
            }
        }
    }
}

// ---------------------------------------------------------------------
// Transitions
// ---------------------------------------------------------------------

/// Whether a constraint asks for a check of `kind` before `next` may be: it
/// names a field that `next` sets to the value that it guards.
pub open spec fn asks_for(c: ConstraintDef, next: Entity, kind: Seq<char>) -> bool {
    c matches ConstraintDef::TransitionRequiresSelfCheck { field, to_value, check_kind }
        && check_kind@ == kind && (meta_value(next.metadata@, field@, 0) matches Some(v) && (
    match v {
        MetadataValue::String(s) => s@,
        MetadataValue::Other(s) => s@,
    }) == to_value@)
}

/// Which kinds are licensed.
proof fn lemma_licensed(
    cs: Seq<ConstraintDef>,
    next: Entity,
    confirmed: Seq<bool>,
    kind: Seq<char>,
)
    requires
        confirmed.len() == cs.len(),
    ensures
        licensed(cs, next, confirmed).contains(kind) <==> exists|i: int|
            0 <= i < cs.len() && asks_for(#[trigger] cs[i], next, kind) && confirmed[i],
        licensed(cs, next, confirmed).no_duplicates(),
    decreases cs.len(),
{
    let all = licensed(cs, next, confirmed);
    if cs.len() > 0 {
        let hc = cs.drop_last();
        let hf = confirmed.drop_last();
        let rest = licensed(hc, next, hf);
        let n = cs.len() - 1;
        lemma_licensed(hc, next, hf, kind);
        assert(cs[n] == cs.last() && confirmed[n] == confirmed.last());
        assert(asks_for(cs[n], next, kind) == (gate_kind(cs[n], next) == Some(kind)));
        if all.contains(kind) {
            let k = choose|k: int| 0 <= k < all.len() && all[k] == kind;
            if k < rest.len() {
                assert(rest[k] == kind);
                assert(rest.contains(kind));
                let i = choose|i: int|
                    0 <= i < hc.len() && asks_for(#[trigger] hc[i], next, kind) && hf[i];
                assert(asks_for(cs[i], next, kind) && confirmed[i]);
            } else {
                assert(asks_for(cs[n], next, kind) && confirmed[n]);
            }
        }
        if exists|i: int|
            0 <= i < cs.len() && asks_for(#[trigger] cs[i], next, kind) && confirmed[i] {
            let i = choose|i: int|
                0 <= i < cs.len() && asks_for(#[trigger] cs[i], next, kind) && confirmed[i];
            if i < n {
                assert(asks_for(hc[i], next, kind) && hf[i]);
                let k = choose|k: int| 0 <= k < rest.len() && rest[k] == kind;
                assert(all[k] == kind);
            } else if rest.contains(kind) {
                let k = choose|k: int| 0 <= k < rest.len() && rest[k] == kind;
                assert(all[k] == kind);
            } else {
                assert(all[rest.len() as int] == kind);
            }
        }
    }
}

/// A transition carries a check along only where a constraint of the type asks
/// for it and the host confirmed it; what the host confirms for certain is
/// carried. None is carried twice.
#[verifier::rlimit(40)]
pub proof fn law_transition_carries_what_was_confirmed<H: Host>(
    h: &Surroundings<H>,
    cs: Seq<ConstraintDef>,
    next: Entity,
    kinds: Seq<Seq<char>>,
    kind: Seq<char>,
)
    requires
        licenses(h, cs, next, kinds),
    ensures
        kinds.no_duplicates(),
        kinds.contains(kind) ==> confirms_reply(h, next, kind, true) && exists|i: int|
            0 <= i < cs.len() && asks_for(#[trigger] cs[i], next, kind),
        (exists|i: int| 0 <= i < cs.len() && asks_for(#[trigger] cs[i], next, kind)) && (forall|
            told: bool,
        | #[trigger]
            confirms_reply(h, next, kind, told) ==> told) ==> kinds.contains(kind),
{
    let confirmed = choose|confirmed: Seq<bool>|
        confirmed.len() == cs.len() && (forall|i: int|
            0 <= i < cs.len() ==> gate_answered(h, cs, next, confirmed, i)) && kinds
            == #[trigger] licensed(cs, next, confirmed);
    lemma_licensed(cs, next, confirmed, kind);
    if kinds.contains(kind) {
        let i = choose|i: int|
            0 <= i < cs.len() && asks_for(#[trigger] cs[i], next, kind) && confirmed[i];
        lemma_first_confirmed(h, cs, next, confirmed, kind, i);
    }
    if (exists|i: int| 0 <= i < cs.len() && asks_for(#[trigger] cs[i], next, kind)) && (forall|
        told: bool,
    | #[trigger]
        confirms_reply(h, next, kind, told) ==> told) {
        let i = choose|i: int| 0 <= i < cs.len() && asks_for(#[trigger] cs[i], next, kind);
        assert(gate_answered(h, cs, next, confirmed, i));
        assert(gate_kind(cs[i], next) == Some(kind));
        if licensed(cs.take(i), next, confirmed.take(i)).contains(kind) {
            lemma_licensed(cs.take(i), next, confirmed.take(i), kind);
            let j = choose|j: int|
                0 <= j < cs.take(i).len() && asks_for(#[trigger] cs.take(i)[j], next, kind)
                    && confirmed.take(i)[j];
            assert(asks_for(cs[j], next, kind) && confirmed[j]);
        } else {
            assert(confirms_reply(h, next, kind, confirmed[i]));
            assert(asks_for(cs[i], next, kind) && confirmed[i]);
        }
    }
}

/// Of the constraints that are taken as confirmed, the first was told so.
proof fn lemma_first_confirmed<H: Host>(
    h: &Surroundings<H>,
    cs: Seq<ConstraintDef>,
    next: Entity,
    confirmed: Seq<bool>,
    kind: Seq<char>,
    i: int,
)
    requires
        confirmed.len() == cs.len(),
        forall|k: int| 0 <= k < cs.len() ==> gate_answered(h, cs, next, confirmed, k),
        0 <= i < cs.len(),
        asks_for(cs[i], next, kind),
        confirmed[i],
    ensures
        confirms_reply(h, next, kind, true),
    decreases i,
{
    assert(gate_answered(h, cs, next, confirmed, i));
    assert(gate_kind(cs[i], next) == Some(kind));
    if licensed(cs.take(i), next, confirmed.take(i)).contains(kind) {
        lemma_licensed(cs.take(i), next, confirmed.take(i), kind);
        let j = choose|j: int|
            0 <= j < cs.take(i).len() && asks_for(#[trigger] cs.take(i)[j], next, kind)
                && confirmed.take(i)[j];
        assert(asks_for(cs[j], next, kind) && confirmed[j]);
        lemma_first_confirmed(h, cs, next, confirmed, kind, j);
    }
}

/// What counts as carried is what the host says that it carried.
pub proof fn law_carried_are_counted(replies: Seq<Result<bool, String>>)
    ensures
        carried_count(replies) == replies.filter(
            |r: Result<bool, String>| r == Ok::<bool, String>(true),
        ).len(),
    decreases replies.len(),
{
    reveal(Seq::filter);
    if replies.len() > 0 {
        law_carried_are_counted(replies.drop_last());
    }
}

/// A check that was sealed reads back as what was sealed: of the entity, of
/// the kind that it was sealed under, with the verdict and hash that it had.
pub proof fn law_sealed_check_reads_back(sc: SealedCheck, id: Seq<char>, rec: CheckRecord)
    requires
        is_unsealed(sc, id, rec),
    ensures
        is_of(rec, id, sc.kind@),
        rec.verdict == sc.record.verdict,
        rec.entity_hash == sc.record.entity_hash,
        rec.schema_ref == sc.record.schema_ref,
        rec.finding == sc.record.finding,
        rec.ts == sc.record.ts,
{
}

// ---------------------------------------------------------------------
// Kinds, states and carrying
// ---------------------------------------------------------------------

/// A kind is read back from its token. Of other tokens just those that begin
/// with `x-` name a kind, a caller's own of that name.
pub proof fn law_kind_reads_back(s: Seq<char>, r: Option<RecordKind>)
    requires
        names_kind(s, r),
    ensures
        s == "verification"@ ==> r == Some(RecordKind::Engine(CheckKind::Verification)),
        s == "conformance"@ ==> r == Some(RecordKind::Engine(CheckKind::Conformance)),
        s.len() >= 2 && s[0] == 'x' && s[1] == '-' ==> (r matches Some(RecordKind::Foreign(t)) && t@
            == s),
        r matches Some(k) ==> k.token() == s,
        s != "verification"@ && s != "conformance"@ && !(s.len() >= 2 && s[0] == 'x' && s[1] == '-')
            ==> r is None,
{
    reveal_strlit("verification");
    reveal_strlit("conformance");
    reveal_strlit("x-");
    assert("verification"@[0] == 'v' && "conformance"@[0] == 'c');
    if s.len() >= 2 {
        assert(s.subrange(0, 2)[0] == s[0] && s.subrange(0, 2)[1] == s[1]);
        if s[0] == 'x' && s[1] == '-' {
            assert(s.subrange(0, 2) =~= "x-"@);
        }
    }
}

/// Where an entity is told to stand is where its newest record of the kind puts
/// it, held against the content that the store has: without one it was never
/// checked; one of other content is stale; one of this content passed or
/// failed as it says, and one of conformance only under the mem's pin.
pub proof fn law_state_is_told_of_the_stored_entity<B, H: Host>(
    engine: Engine<B, H>,
    mem: Seq<char>,
    id: Seq<char>,
    kind: CheckKind,
    r: Result<(CheckState, Option<CheckRecord>), EngineError>,
)
    requires
        tells_state(engine, mem, id, kind, r),
        engine.mount_of(mem) is Some,
    ensures
        r is Ok <==> exists|e: Entity| #[trigger] is_stored(engine.store.entities@, mem, id, e),
        r matches Ok(pair) ==> exists|e: Entity| #[trigger]
            is_stored(engine.store.entities@, mem, id, e) && stands(
                pair.0,
                pair.1,
                id,
                kind,
                e.content_hash@,
                match engine.mount_of(mem)->0.mount.schema {
                    Some(s) => Some(s.name@ + "@"@ + s.version@),
                    None => None,
                },
            ),
{
    lemma_entity_in(engine.store.entities@, mem, id, 0);
    let found = entity_in(engine.store.entities@, mem, id, 0);
    if exists|e: Entity| #[trigger] is_stored(engine.store.entities@, mem, id, e) {
        let e = choose|e: Entity| #[trigger] is_stored(engine.store.entities@, mem, id, e);
        let j = choose|j: int|
            0 <= j < engine.store.entities@.len() && engine.store.entities@[j] == e;
        assert(engine.store.entities@[j].mem@ == mem);
    }
    if let Ok(pair) = r {
        let e = found->0;
        assert(is_stored(engine.store.entities@, mem, id, e));
        let recs = choose|recs: Seq<CheckRecord>| #[trigger]
            crate::check_ops::reads_records(engine, mem, id, recs) && pair.1 == latest_of(
                recs,
                id,
                kind.token(),
            );
        law_newest_record_is_the_last(recs, id, kind.token());
        reveal_strlit("ok");
        assert("ok"@ =~= seq!['o', 'k']);
    }
}

/// Whether a state is the one that a record of a kind gives content under a
/// pin.
pub open spec fn stands(
    state: CheckState,
    rec: Option<CheckRecord>,
    id: Seq<char>,
    kind: CheckKind,
    current: Seq<char>,
    pin: Option<Seq<char>>,
) -> bool {
    match rec {
        None => state == CheckState::NeverChecked,
        Some(r) => {
            &&& is_of(
                r,
                id,
                match kind {
                    CheckKind::Verification => "verification"@,
                    CheckKind::Conformance => "conformance"@,
                },
            )
            &&& state == (if r.entity_hash@ != current || (kind == CheckKind::Conformance
                && opt_text(r.schema_ref) != pin) {
                CheckState::CheckStale
            } else if r.verdict@ == seq!['o', 'k'] {
                CheckState::CheckedOk
            } else {
                CheckState::CheckFailed
            })
        },
    }
}

/// Content that did not change carries nothing, nor does a change without
/// kinds: nothing is asked. Otherwise the ledger is asked for each kind in
/// turn, from the old content to the new, and success means for all of them.
pub proof fn law_only_changes_are_carried<B, H: Host>(
    pre: Engine<B, H>,
    id: Seq<char>,
    kinds: Seq<Seq<char>>,
    pre_hash: Seq<char>,
    post_hash: Seq<char>,
    post: Engine<B, H>,
    r: Result<usize, EngineError>,
)
    requires
        carries_across(pre, id, kinds, pre_hash, post_hash, post, r),
    ensures
        pre_hash == post_hash || kinds.len() == 0 ==> post == pre && r == Ok::<usize, EngineError>(
            0,
        ),
        pre_hash != post_hash && pre.workspace_root is Some && r is Ok ==> post.host.calls()
            == pre.host.calls() + Seq::new(
            kinds.len(),
            |i: int|
                HostCall::CarryTransition {
                    root: pre.workspace_root->0@,
                    id,
                    kind: kinds[i],
                    pre_hash,
                    post_hash,
                },
        ),
        post == (Engine { host: post.host, ..pre }),
{
    let calls = Seq::new(
        kinds.len(),
        |i: int|
            HostCall::CarryTransition {
                root: pre.workspace_root->0@,
                id,
                kind: kinds[i],
                pre_hash,
                post_hash,
            },
    );
    if kinds.len() == 0 {
        assert(pre.host.calls() + calls =~= pre.host.calls());
    } else if pre_hash != post_hash && pre.workspace_root is Some && r is Ok {
        assert(crate::check_ops::carry_calls(
            pre.workspace_root->0@,
            id,
            kinds,
            pre_hash,
            post_hash,
            kinds.len(),
        ) =~= calls);
    }
}

/// A rename carries the checks of the old id to the new one: the ledger is
/// asked for that once, and for nothing else.
pub proof fn law_rename_is_carried_once<B, H: Host>(
    pre: Engine<B, H>,
    from: Seq<char>,
    to: Seq<char>,
    post: Engine<B, H>,
    r: Result<usize, EngineError>,
)
    requires
        carries_rename(pre, from, to, post, r),
    ensures
        pre.workspace_root is None ==> post == pre && r == Ok::<usize, EngineError>(0),
        pre.workspace_root matches Some(root) ==> post.host.calls() == pre.host.calls() + seq![
            HostCall::CarryRename { root: root@, from, to },
        ],
        post == (Engine { host: post.host, ..pre }),
{
}

/// The newest record of a kind is one of those that the ledger holds of the
/// entity, or the archive of a mem that is one, and none of that kind comes
/// behind it.
pub proof fn law_latest_is_the_newest<B, H: Host>(
    engine: Engine<B, H>,
    mem: Seq<char>,
    id: Seq<char>,
    kind: Seq<char>,
    r: Option<CheckRecord>,
)
    requires
        tells_latest(engine, mem, id, kind, r),
    ensures
        exists|recs: Seq<CheckRecord>| #[trigger]
            crate::check_ops::reads_records(engine, mem, id, recs) && match r {
                Some(rec) => exists|k: int|
                    0 <= k < recs.len() && #[trigger] recs[k] == rec && is_of(rec, id, kind)
                        && forall|j: int|
                        k < j < recs.len() ==> !is_of(#[trigger] recs[j], id, kind),
                None => forall|j: int| 0 <= j < recs.len() ==> !is_of(#[trigger] recs[j], id, kind),
            },
{
    let recs = choose|recs: Seq<CheckRecord>| #[trigger]
        crate::check_ops::reads_records(engine, mem, id, recs) && r == latest_of(recs, id, kind);
    law_newest_record_is_the_last(recs, id, kind);
}

/// A code of the engine's shape begins with a capital and goes on in capitals,
/// digits and underscores; what one letter more or one of another sort makes of
/// it follows.
pub proof fn law_engine_shape_letter_by_letter(code: Seq<char>, c: char)
    ensures
        !has_engine_shape(Seq::empty()),
        has_engine_shape(seq![c]) <==> 65 <= c as int <= 90,
        code.len() > 0 ==> (has_engine_shape(code.push(c)) <==> has_engine_shape(code) && (65
            <= c as int <= 90 || 48 <= c as int <= 57 || c as int == 95)),
{
    if code.len() > 0 {
        let longer = code.push(c);
        assert(longer[code.len() as int] == c);
        assert forall|i: int| 0 <= i < code.len() implies longer[i] == #[trigger] code[i] by {}
        if has_engine_shape(longer) {
            assert forall|i: int| 0 <= i < code.len() implies crate::check_ops::is_code_char(
                #[trigger] code[i],
            ) by {
                assert(crate::check_ops::is_code_char(longer[i]));
            }
        }
    }
    assert(seq![c][0] == c);
}

} // verus!
