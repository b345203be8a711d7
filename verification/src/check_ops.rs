//! Recording checks of entities and deriving where an entity stands with
//! them. Checking changes no entity: that is what makes a stale check show by
//! its hash.

use crate::backend::{Actor, ClientId, MemBackend};
use crate::check::{
    derive_state, derive_state_pinned, pinned_state_of, state_of, CheckFinding, CheckKind,
    CheckRecord, CheckState, FOREIGN_KIND_PREFIX, RecordKind, SealedCheck, Verdict,
};
use crate::engine::{asked, says_unknown, Engine};
use crate::entity::{id_path, meta_value, Entity, EntityId};
use crate::error::EngineError;
use crate::host::{
    append_reply, carry_rename_reply, carry_transition_reply, conditions_reply, confirms_reply,
    finding_reply, ledger_reply, now_reply, Host, HostCall, Surroundings,
};
use crate::schema::{ConstraintDef, TypeDefinition};
use crate::text::{
    before, begins, chars_of, join, join_list, lex_less, listed, opt_str, opt_text, own, own_opt,
    same, starts, texts, trim, trimmed,
};
use crate::workspace::{MountCapability, MountStorage};
use vstd::prelude::*;

verus! {

// ---------------------------------------------------------------------
// Findings
// ---------------------------------------------------------------------

/// Whether a character may stand in a code of the engine's namespace.
pub open spec fn is_code_char(c: char) -> bool {
    'A' <= c <= 'Z' || '0' <= c <= '9' || c == '_'
}

/// Whether a code is spelled as the engine spells its own: capitals, digits
/// and underscores, starting with a capital.
pub open spec fn has_engine_shape(code: Seq<char>) -> bool {
    code.len() > 0 && 'A' <= code[0] <= 'Z' && forall|i: int|
        0 <= i < code.len() ==> is_code_char(#[trigger] code[i])
}

/// Whether a code is spelled as the engine spells its own.
pub fn is_engine_code_shape(code: &str) -> (r: bool)
    ensures
        r == has_engine_shape(code@),
{
    let x = chars_of(code);
    if x.len() == 0 || !('A' <= x[0] && x[0] <= 'Z') {
        return false;
    }
    for i in 0..x.len()
        invariant
            x@ == code@,
            forall|k: int| 0 <= k < i ==> is_code_char(#[trigger] x@[k]),
    {
        let c = x[i];
        if !(('A' <= c && c <= 'Z') || ('0' <= c && c <= '9') || c == '_') {
            assert(!is_code_char(code@[i as int]));
            return false;
        }
    }
    true
}

/// Whether a method says nothing.
pub open spec fn is_blank_method(method: Option<Seq<char>>) -> bool {
    match method {
        Some(m) => trim(m).len() == 0,
        None => true,
    }
}

/// Whether `r` is what a well-formed finding is answered: a code of the
/// engine's namespace names a health condition, and an acknowledgement of one
/// says in its method who closes it.
pub open spec fn judges_finding(
    code: Seq<char>,
    conditions: Seq<Seq<char>>,
    verdict: Verdict,
    method: Option<Seq<char>>,
    r: Result<(), EngineError>,
) -> bool {
    if has_engine_shape(code) && !conditions.contains(code) {
        r matches Err(EngineError::InvalidCheckFinding { reason }) && reason@ == "finding.code `"@
            + code
            + "` is spelled in the engine's UPPER_SNAKE namespace but names no health condition — an acknowledgement names one of: "@
            + join(conditions, ", "@)
            + "; a checker's own code takes another spelling (`hidden-premise`)"@
    } else if conditions.contains(code) && verdict == Verdict::Failed && is_blank_method(method) {
        r matches Err(EngineError::InvalidCheckFinding { reason }) && reason@
            == "an acknowledgement of `"@ + code
            + "` names its owner and the plan that closes it in `method`, and none was given"@
    } else {
        r is Ok
    }
}

/// Answer a well-formed finding.
pub fn judge_finding(
    code: &str,
    conditions: &Vec<String>,
    verdict: Verdict,
    method: Option<&str>,
) -> (r: Result<(), EngineError>)
    ensures
        judges_finding(code@, texts(conditions@), verdict, opt_str(method), r),
{
    let known = listed(conditions, code);
    if is_engine_code_shape(code) && !known {
        return Err(
            EngineError::InvalidCheckFinding {
                reason: "finding.code `".to_owned().concat(code).concat(
                    "` is spelled in the engine's UPPER_SNAKE namespace but names no health condition — an acknowledgement names one of: ",
                ).concat(&join_list(conditions, ", ")).concat(
                    "; a checker's own code takes another spelling (`hidden-premise`)",
                ),
            },
        );
    }
    let blank = match method {
        Some(m) => chars_of(&trimmed(m)).len() == 0,
        None => true,
    };
    if known && verdict == Verdict::Failed && blank {
        return Err(
            EngineError::InvalidCheckFinding {
                reason: "an acknowledgement of `".to_owned().concat(code).concat(
                    "` names its owner and the plan that closes it in `method`, and none was given",
                ),
            },
        );
    }
    Ok(())
}

/// Whether `r` is what a finding is answered before anything is recorded.
pub open spec fn answers_finding<H: Host>(
    h: &Surroundings<H>,
    finding: Option<CheckFinding>,
    verdict: Verdict,
    method: Option<Seq<char>>,
    r: Result<(), EngineError>,
) -> bool {
    match finding {
        None => r is Ok,
        Some(f) => exists|valid: Result<(), String>| #[trigger]
            finding_reply(h, f, valid) && match valid {
                Err(m) => r matches Err(EngineError::InvalidCheckFinding { reason }) && reason == m,
                Ok(_) => answers_code(h, f.code@, verdict, method, r),
            },
    }
}

/// Whether `r` is what the code of a finding is answered.
pub open spec fn answers_code<H: Host>(
    h: &Surroundings<H>,
    code: Seq<char>,
    verdict: Verdict,
    method: Option<Seq<char>>,
    r: Result<(), EngineError>,
) -> bool {
    exists|conditions: Vec<String>| #[trigger]
        conditions_reply(h, conditions) && judges_finding(
            code,
            texts(conditions@),
            verdict,
            method,
            r,
        )
}

// ---------------------------------------------------------------------
// What is checked
// ---------------------------------------------------------------------

/// The entity `id` of a mem, the first from `i` on.
pub open spec fn entity_in(
    entities: Seq<Entity>,
    mem: Seq<char>,
    id: Seq<char>,
    i: int,
) -> Option<Entity>
    decreases entities.len() - i,
{
    if i < 0 || i >= entities.len() {
        None
    } else if entities[i].mem@ == mem && entities[i].id.0@ == id {
        Some(entities[i])
    } else {
        entity_in(entities, mem, id, i + 1)
    }
}

/// The entity `id` of a mem.
fn find_entity<'a>(entities: &'a Vec<Entity>, mem: &str, id: &str) -> (r: Option<&'a Entity>)
    ensures
        match r {
            Some(e) => entity_in(entities@, mem@, id@, 0) == Some(*e),
            None => entity_in(entities@, mem@, id@, 0) is None,
        },
{
    let mut i: usize = 0;
    while i < entities.len()
        invariant
            i <= entities@.len(),
            entity_in(entities@, mem@, id@, 0) == entity_in(entities@, mem@, id@, i as int),
        decreases entities@.len() - i,
    {
        if same(&entities[i].mem, mem) && same(&entities[i].id.0, id) {
            return Some(&entities[i]);
        }
        i = i + 1;
    }
    None
}

/// What a check is recorded of: the content, the pin that it binds to, and
/// the root of the ledger.
pub struct Subject {
    pub entity_hash: String,
    pub schema_ref: Option<String>,
    pub root: String,
}

/// Whether a record of the kind binds to the mem's pin.
pub open spec fn binds_to_pin(kind: RecordKind) -> bool {
    kind == RecordKind::Engine(CheckKind::Conformance)
}

/// Whether `r` is what a check would be recorded of, or why none can be.
pub open spec fn is_subject<B, H>(
    engine: Engine<B, H>,
    mem: Seq<char>,
    id: Seq<char>,
    kind: RecordKind,
    r: Result<Subject, EngineError>,
) -> bool {
    match engine.mount_of(mem) {
        None => r matches Err(e) && says_unknown(engine.quarantined@, mem, e),
        Some(m) => if m.mount.capability != MountCapability::Write {
            r matches Err(EngineError::ReadOnlyMount(n)) && n@ == mem
        } else if binds_to_pin(kind) && m.mount.schema is None {
            r matches Err(EngineError::InvalidInput(t)) && t@
                == "a conformance check binds to the mem's schema pin, and mem `"@ + mem
                + "` declares none"@
        } else {
            match entity_in(engine.store.entities@, mem, id, 0) {
                None => r matches Err(EngineError::NotFound { id: i }) && i@ == id,
                Some(e) => match engine.workspace_root {
                    None => r matches Err(EngineError::CheckNotRecorded { reason }) && reason@
                        == "engine has no workspace root — no durable check store"@,
                    Some(root) => r matches Ok(s) && s.entity_hash == e.content_hash && s.root
                        == root && opt_text(s.schema_ref) == (if binds_to_pin(kind) {
                        Some(m.mount.schema->0.display())
                    } else {
                        None
                    }),
                },
            }
        },
    }
}

/// A record's own kind: a verification leaves it out.
pub open spec fn recorded_kind(kind: RecordKind) -> Option<Seq<char>> {
    if kind == RecordKind::Engine(CheckKind::Verification) {
        None
    } else {
        Some(kind.token())
    }
}

/// The method of a record, without the white space around it.
pub open spec fn recorded_method(method: Option<Seq<char>>) -> Option<Seq<char>> {
    match method {
        Some(m) => if trim(m).len() > 0 {
            Some(trim(m))
        } else {
            None
        },
        None => None,
    }
}

/// The client as a record names it.
pub open spec fn recorded_client(client: Option<&ClientId>) -> Option<Seq<char>> {
    match client {
        Some(c) => Some(c.name@ + "@"@ + c.version@),
        None => None,
    }
}

/// The role as a record names it.
pub open spec fn recorded_role(role: Option<String>) -> Seq<char> {
    match role {
        Some(r) => r@,
        None => "unspecified"@,
    }
}

/// Whether `rec` is the record of a check.
pub open spec fn is_record<B, H>(
    engine: Engine<B, H>,
    subject: Subject,
    ts: u64,
    id: Seq<char>,
    verdict: Verdict,
    kind: RecordKind,
    method: Option<Seq<char>>,
    finding: Option<CheckFinding>,
    actor: Actor,
    client: Option<&ClientId>,
    rec: CheckRecord,
) -> bool {
    &&& rec.ts == ts
    &&& rec.entity@ == id
    &&& rec.verdict@ == verdict.token()
    &&& opt_text(rec.method) == recorded_method(method)
    &&& rec.entity_hash == subject.entity_hash
    &&& rec.actor@ == actor.token()
    &&& opt_text(rec.client) == recorded_client(client)
    &&& rec.role@ == recorded_role(engine.current_role)
    &&& rec.identity == engine.current_identity
    &&& opt_text(rec.kind) == recorded_kind(kind)
    &&& rec.schema_ref == subject.schema_ref
    &&& rec.finding == finding
    &&& rec.renamed_from is None
    &&& rec.carried_from is None
}

/// Whether the request to record a check took an engine from `pre` to `post`
/// with the answer `r`. A finding or a subject that is refused appends
/// nothing; otherwise the one record is appended. A caller is told of a record
/// only where the ledger took it.
pub open spec fn records_check<B, H: Host>(
    pre: Engine<B, H>,
    mem: Seq<char>,
    id: Seq<char>,
    verdict: Verdict,
    kind: RecordKind,
    method: Option<Seq<char>>,
    finding: Option<CheckFinding>,
    actor: Actor,
    client: Option<&ClientId>,
    post: Engine<B, H>,
    r: Result<CheckRecord, EngineError>,
) -> bool {
    exists|found: Result<(), EngineError>| #[trigger]
        answers_finding(&pre.host, finding, verdict, method, found) && match found {
            Err(e) => post == pre && r == Err::<CheckRecord, EngineError>(e),
            Ok(_) => records_subject(
                pre,
                mem,
                id,
                verdict,
                kind,
                method,
                finding,
                actor,
                client,
                post,
                r,
            ),
        }
}

/// Whether the request to record a check whose finding is in order took an
/// engine from `pre` to `post` with the answer `r`.
pub open spec fn records_subject<B, H: Host>(
    pre: Engine<B, H>,
    mem: Seq<char>,
    id: Seq<char>,
    verdict: Verdict,
    kind: RecordKind,
    method: Option<Seq<char>>,
    finding: Option<CheckFinding>,
    actor: Actor,
    client: Option<&ClientId>,
    post: Engine<B, H>,
    r: Result<CheckRecord, EngineError>,
) -> bool {
    exists|subject: Result<Subject, EngineError>| #[trigger]
        is_subject(pre, mem, id, kind, subject) && match subject {
            Err(e) => post == pre && r == Err::<CheckRecord, EngineError>(e),
            Ok(s) => exists|ts: u64, rec: CheckRecord, kept: Result<(), String>|
                now_reply(&pre.host, ts) && is_record(
                    pre,
                    s,
                    ts,
                    id,
                    verdict,
                    kind,
                    method,
                    finding,
                    actor,
                    client,
                    rec,
                ) && #[trigger] took_record(&pre.host, s.root@, ts, rec, kept) && asked(
                    pre,
                    post,
                    seq![HostCall::Append { root: s.root@, record: rec }],
                ) && match kept {
                    Ok(_) => r == Ok::<CheckRecord, EngineError>(rec),
                    Err(m) => r matches Err(EngineError::CheckNotRecorded { reason }) && reason@
                        == "ledger append failed: "@ + m@,
                },
        }
}

/// Whether the ledger may have answered this when a record of that time was
/// appended.
pub open spec fn took_record<H: Host>(
    h: &Surroundings<H>,
    root: Seq<char>,
    ts: u64,
    rec: CheckRecord,
    kept: Result<(), String>,
) -> bool {
    rec.ts == ts && append_reply(h, root, rec, kept)
}

// ---------------------------------------------------------------------
// Reading records
// ---------------------------------------------------------------------

/// The newest record of an entity under a wire kind.
pub open spec fn latest_of(recs: Seq<CheckRecord>, id: Seq<char>, kind: Seq<char>) -> Option<
    CheckRecord,
>
    decreases recs.len(),
{
    if recs.len() == 0 {
        None
    } else if recs.last().entity@ == id && recs.last().wire_kind() == kind {
        Some(recs.last())
    } else {
        latest_of(recs.drop_last(), id, kind)
    }
}

/// The sealed checks of a path.
pub open spec fn sealed_at(sealed: Seq<SealedCheck>, path: Seq<char>) -> Seq<SealedCheck>
    decreases sealed.len(),
{
    if sealed.len() == 0 {
        Seq::empty()
    } else if sealed.last().path@ == path {
        sealed_at(sealed.drop_last(), path).push(sealed.last())
    } else {
        sealed_at(sealed.drop_last(), path)
    }
}

/// Whether `rec` is a sealed check read as a record of an entity. As in the
/// ledger, a verification leaves its kind out.
pub open spec fn is_unsealed(sc: SealedCheck, id: Seq<char>, rec: CheckRecord) -> bool {
    &&& rec.entity@ == id
    &&& opt_text(rec.kind) == (if sc.kind@ == CheckKind::Verification.token() {
        None
    } else {
        Some(sc.kind@)
    })
    &&& rec == (CheckRecord { entity: rec.entity, kind: rec.kind, ..sc.record })
}

/// The sealed checks of the mount of a mem.
pub open spec fn sealed_of<B, H>(engine: Engine<B, H>, mem: Seq<char>) -> Seq<SealedCheck> {
    match engine.mount_of(mem) {
        Some(m) => match m.sealed_checks {
            Some(v) => v@,
            None => Seq::empty(),
        },
        None => Seq::empty(),
    }
}

/// Whether a mem is mounted from an archive.
pub open spec fn is_archive<B, H>(engine: Engine<B, H>, mem: Seq<char>) -> bool {
    match engine.mount_of(mem) {
        Some(m) => m.mount.storage is Archive,
        None => false,
    }
}

/// Whether `recs` are the records that checks of an entity are read from: for
/// an archive those that it carries sealed, for every other mem those of the
/// workspace ledger. Without a workspace there are none.
pub open spec fn reads_records<B, H: Host>(
    engine: Engine<B, H>,
    mem: Seq<char>,
    id: Seq<char>,
    recs: Seq<CheckRecord>,
) -> bool {
    if is_archive(engine, mem) {
        let sealed = sealed_at(sealed_of(engine, mem), id_path(id));
        recs.len() == sealed.len() && forall|i: int|
            0 <= i < recs.len() ==> is_unsealed(sealed[i], id, #[trigger] recs[i])
    } else {
        match engine.workspace_root {
            Some(root) => exists|reply: Vec<CheckRecord>| #[trigger]
                ledger_reply(&engine.host, root@, reply) && recs == reply@,
            None => recs.len() == 0,
        }
    }
}

/// Whether a record is of a kind that the engine never reads.
pub open spec fn is_foreign(rec: CheckRecord, id: Seq<char>) -> bool {
    rec.entity@ == id && (rec.kind matches Some(k) && starts(k@, FOREIGN_KIND_PREFIX@))
}

/// The first place from `i` on whose kind does not stand before `kind`.
pub open spec fn kind_place(list: Seq<CheckRecord>, kind: Seq<char>, i: int) -> int
    decreases list.len() - i,
{
    if i < 0 || i >= list.len() {
        list.len() as int
    } else if lex_less(list[i].wire_kind(), kind) {
        kind_place(list, kind, i + 1)
    } else {
        i
    }
}

/// A list in the order of kinds with `rec` as the record of its kind.
pub open spec fn with_record(list: Seq<CheckRecord>, rec: CheckRecord) -> Seq<CheckRecord> {
    let k = kind_place(list, rec.wire_kind(), 0);
    if k < list.len() && list[k].wire_kind() == rec.wire_kind() {
        list.update(k, rec)
    } else {
        list.insert(k, rec)
    }
}

/// The newest record of an entity for each foreign kind, in the order of
/// kinds.
pub open spec fn foreign_latest(recs: Seq<CheckRecord>, id: Seq<char>) -> Seq<CheckRecord>
    decreases recs.len(),
{
    if recs.len() == 0 {
        Seq::empty()
    } else {
        let rest = foreign_latest(recs.drop_last(), id);
        if is_foreign(recs.last(), id) {
            with_record(rest, recs.last())
        } else {
            rest
        }
    }
}

/// Whether a list holds one record for each kind, in the order of kinds.
pub open spec fn in_kind_order(list: Seq<CheckRecord>) -> bool {
    forall|i: int, j: int|
        #![trigger list[i], list[j]]
        0 <= i < j < list.len() ==> lex_less(list[i].wire_kind(), list[j].wire_kind())
}

/// The place found lies in the list or right behind it; every kind before it
/// stands before the kind, and the one at it does not.
proof fn lemma_kind_place(list: Seq<CheckRecord>, kind: Seq<char>, i: int)
    requires
        0 <= i <= list.len(),
    ensures
        i <= kind_place(list, kind, i) <= list.len(),
        forall|j: int|
            i <= j < kind_place(list, kind, i) ==> lex_less(
                (#[trigger] list[j]).wire_kind(),
                kind,
            ),
        kind_place(list, kind, i) < list.len() ==> !lex_less(
            list[kind_place(list, kind, i)].wire_kind(),
            kind,
        ),
    decreases list.len() - i,
{
    if i < list.len() && lex_less(list[i].wire_kind(), kind) {
        lemma_kind_place(list, kind, i + 1);
    }
}

/// The foreign records of an entity are listed in the order of kinds, one for
/// each kind.
pub proof fn law_foreign_checks_are_in_kind_order(recs: Seq<CheckRecord>, id: Seq<char>)
    ensures
        in_kind_order(foreign_latest(recs, id)),
    decreases recs.len(),
{
    if recs.len() > 0 {
        law_foreign_checks_are_in_kind_order(recs.drop_last(), id);
        let list = foreign_latest(recs.drop_last(), id);
        let rec = recs.last();
        if is_foreign(rec, id) {
            let kind = rec.wire_kind();
            let k = kind_place(list, kind, 0);
            lemma_kind_place(list, kind, 0);
            let out = with_record(list, rec);
            assert forall|i: int, j: int|
                #![trigger out[i], out[j]]
                0 <= i < j < out.len() implies lex_less(
                out[i].wire_kind(),
                out[j].wire_kind(),
            ) by {
                if k < list.len() && list[k].wire_kind() == kind {
                    assert(list[i].wire_kind() == out[i].wire_kind());
                    assert(list[j].wire_kind() == out[j].wire_kind());
                } else {
                    if k < list.len() {
                        crate::text::lemma_lex_total(list[k].wire_kind(), kind);
                    }
                    if j < k {
                        assert(out[i] == list[i] && out[j] == list[j]);
                    } else if j == k {
                        assert(out[i] == list[i] && out[j] == rec);
                    } else if i < k {
                        assert(out[i] == list[i] && out[j] == list[j - 1]);
                    } else if i == k {
                        assert(out[i] == rec && out[j] == list[j - 1]);
                        if j - 1 > k {
                            crate::text::lemma_lex_transitive(
                                kind,
                                list[k].wire_kind(),
                                list[j - 1].wire_kind(),
                            );
                        }
                    } else {
                        assert(out[i] == list[i - 1] && out[j] == list[j - 1]);
                    }
                }
            }
        }
    }
}

/// No wire kind of a foreign record is the one of a verification.
proof fn lemma_foreign_kind(a: CheckRecord, id: Seq<char>, b: CheckRecord)
    requires
        is_foreign(a, id),
        b.wire_kind() == a.wire_kind(),
        b.entity@ == id,
    ensures
        is_foreign(b, id),
{
    reveal_strlit("x-");
    reveal_strlit("verification");
    if b.kind is None {
        assert(a.wire_kind()[0] == FOREIGN_KIND_PREFIX@[0]);
    }
}

/// Each foreign record that is listed is the newest of its kind, and no
/// foreign kind of the entity is left out.
pub proof fn law_foreign_checks_are_the_newest(recs: Seq<CheckRecord>, id: Seq<char>)
    ensures
        forall|i: int|
            0 <= i < foreign_latest(recs, id).len() ==> is_foreign(
                #[trigger] foreign_latest(recs, id)[i],
                id,
            ) && latest_of(recs, id, foreign_latest(recs, id)[i].wire_kind()) == Some(
                foreign_latest(recs, id)[i],
            ),
        forall|k: int|
            0 <= k < recs.len() && is_foreign(#[trigger] recs[k], id) ==> lists_kind(
                foreign_latest(recs, id),
                recs[k].wire_kind(),
            ),
    decreases recs.len(),
{
    if recs.len() > 0 {
        let rest = recs.drop_last();
        let rec = recs.last();
        let list = foreign_latest(rest, id);
        let out = foreign_latest(recs, id);
        law_foreign_checks_are_the_newest(rest, id);
        law_foreign_checks_are_in_kind_order(recs, id);
        if is_foreign(rec, id) {
            let at = kind_place(list, rec.wire_kind(), 0);
            lemma_kind_place(list, rec.wire_kind(), 0);
            let held = at < list.len() && list[at].wire_kind() == rec.wire_kind();
            assert(out[at] == rec);
            assert forall|i: int| 0 <= i < out.len() implies is_foreign(#[trigger] out[i], id)
                && latest_of(recs, id, out[i].wire_kind()) == Some(out[i]) by {
                if i != at {
                    let j = if held || i < at {
                        i
                    } else {
                        i - 1
                    };
                    assert(out[i] == list[j]);
                    crate::text::lemma_lex_irreflexive(rec.wire_kind());
                    if i < at {
                        assert(lex_less(out[i].wire_kind(), out[at].wire_kind()));
                    } else {
                        assert(lex_less(out[at].wire_kind(), out[i].wire_kind()));
                    }
                }
            }
            assert forall|k: int| 0 <= k < recs.len() && is_foreign(
                #[trigger] recs[k],
                id,
            ) implies lists_kind(out, recs[k].wire_kind()) by {
                if k < rest.len() {
                    assert(rest[k] == recs[k]);
                    let i = choose|i: int|
                        0 <= i < list.len() && (#[trigger] list[i]).wire_kind()
                            == recs[k].wire_kind();
                    if held || i < at {
                        assert(out[i].wire_kind() == recs[k].wire_kind());
                    } else {
                        assert(out[i + 1].wire_kind() == recs[k].wire_kind());
                    }
                } else {
                    assert(out[at].wire_kind() == recs[k].wire_kind());
                }
            }
        } else {
            assert forall|i: int| 0 <= i < out.len() implies is_foreign(#[trigger] out[i], id)
                && latest_of(recs, id, out[i].wire_kind()) == Some(out[i]) by {
                assert(out[i] == list[i]);
                if rec.entity@ == id && rec.wire_kind() == out[i].wire_kind() {
                    lemma_foreign_kind(out[i], id, rec);
                }
            }
            assert forall|k: int| 0 <= k < recs.len() && is_foreign(
                #[trigger] recs[k],
                id,
            ) implies lists_kind(out, recs[k].wire_kind()) by {
                assert(rest[k] == recs[k]);
            }
        }
    }
}

/// Whether a list holds a record of a wire kind.
pub open spec fn lists_kind(list: Seq<CheckRecord>, kind: Seq<char>) -> bool {
    exists|i: int| 0 <= i < list.len() && (#[trigger] list[i]).wire_kind() == kind
}

/// Put a record into a list in the order of kinds.
fn put_record(list: &mut Vec<CheckRecord>, rec: CheckRecord)
    ensures
        final(list)@ == with_record(old(list)@, rec),
{
    let kind = rec.kind_token();
    let mut i: usize = 0;
    while i < list.len() && before(&list[i].kind_token(), &kind)
        invariant
            i <= list@.len(),
            kind@ == rec.wire_kind(),
            kind_place(list@, kind@, 0) == kind_place(list@, kind@, i as int),
        decreases list@.len() - i,
    {
        i = i + 1;
    }
    if i < list.len() && same(&list[i].kind_token(), &kind) {
        list[i] = rec;
    } else {
        list.insert(i, rec);
    }
}

/// The newest record of an entity under a wire kind.
pub fn latest_record(recs: &Vec<CheckRecord>, id: &str, kind: &str) -> (r: Option<CheckRecord>)
    ensures
        r == latest_of(recs@, id@, kind@),
{
    let mut i: usize = recs.len();
    assert(recs@.take(i as int) =~= recs@);
    while i > 0
        invariant
            i <= recs@.len(),
            latest_of(recs@, id@, kind@) == latest_of(recs@.take(i as int), id@, kind@),
        decreases i,
    {
        assert(recs@.take(i as int).drop_last() =~= recs@.take(i - 1));
        i = i - 1;
        if same(&recs[i].entity, id) && same(&recs[i].kind_token(), kind) {
            return Some(recs[i].copy());
        }
    }
    None
}

/// The newest record of an entity for each foreign kind.
pub fn latest_foreign(recs: &Vec<CheckRecord>, id: &str) -> (r: Vec<CheckRecord>)
    ensures
        r@ == foreign_latest(recs@, id@),
{
    let mut out: Vec<CheckRecord> = Vec::new();
    assert(out@ =~= foreign_latest(recs@.take(0), id@));
    for i in 0..recs.len()
        invariant
            out@ == foreign_latest(recs@.take(i as int), id@),
    {
        assert(recs@.take(i + 1).drop_last() =~= recs@.take(i as int));
        let rec = &recs[i];
        let foreign = match &rec.kind {
            Some(k) => begins(k, FOREIGN_KIND_PREFIX),
            None => false,
        };
        if same(&rec.entity, id) && foreign {
            put_record(&mut out, rec.copy());
        }
    }
    assert(recs@.take(recs@.len() as int) =~= recs@);
    out
}

// ---------------------------------------------------------------------
// Gates
// ---------------------------------------------------------------------

/// Whether an entity holds the value that a gate waits for.
pub open spec fn gate_kind(c: ConstraintDef, next: Entity) -> Option<Seq<char>> {
    match c {
        ConstraintDef::TransitionRequiresSelfCheck { field, to_value, check_kind } => match meta_value(
            next.metadata@,
            field@,
            0,
        ) {
            Some(v) => if v.frontmatter() == to_value@ {
                Some(check_kind@)
            } else {
                None
            },
            None => None,
        },
        ConstraintDef::Other => None,
    }
}

/// The kinds of the gates that an entity passes, given whether a record
/// confirms it for each of them.
pub open spec fn licensed(cs: Seq<ConstraintDef>, next: Entity, confirmed: Seq<bool>) -> Seq<
    Seq<char>,
>
    decreases cs.len(),
{
    if cs.len() == 0 || confirmed.len() != cs.len() {
        Seq::empty()
    } else {
        let rest = licensed(cs.drop_last(), next, confirmed.drop_last());
        match gate_kind(cs.last(), next) {
            Some(kind) => if !rest.contains(kind) && confirmed.last() {
                rest.push(kind)
            } else {
                rest
            },
            None => rest,
        }
    }
}

/// Whether the answer at `i` is the host's, where the constraint there waits
/// for a kind that is not licensed yet.
pub open spec fn gate_answered<H: Host>(
    h: &Surroundings<H>,
    cs: Seq<ConstraintDef>,
    next: Entity,
    confirmed: Seq<bool>,
    i: int,
) -> bool {
    match gate_kind(cs[i], next) {
        Some(kind) => licensed(cs.take(i), next, confirmed.take(i)).contains(kind)
            || confirms_reply(h, next, kind, confirmed[i]),
        None => true,
    }
}

/// Whether `kinds` are those that an entity's write passes on the strength of
/// its records.
pub open spec fn licenses<H: Host>(
    h: &Surroundings<H>,
    cs: Seq<ConstraintDef>,
    next: Entity,
    kinds: Seq<Seq<char>>,
) -> bool {
    exists|confirmed: Seq<bool>|
        confirmed.len() == cs.len() && (forall|i: int|
            0 <= i < cs.len() ==> gate_answered(h, cs, next, confirmed, i)) && kinds
            == #[trigger] licensed(cs, next, confirmed)
}

/// How many of the replies say that a record was carried.
pub open spec fn carried_count(replies: Seq<Result<bool, String>>) -> nat
    decreases replies.len(),
{
    if replies.len() == 0 {
        0
    } else {
        carried_count(replies.drop_last()) + (match replies.last() {
            Ok(true) => 1nat,
            _ => 0,
        })
    }
}

/// The call that carries a record of a kind across a transition.
pub open spec fn carry_call(
    root: Seq<char>,
    id: Seq<char>,
    kind: Seq<char>,
    pre_hash: Seq<char>,
    post_hash: Seq<char>,
) -> HostCall {
    HostCall::CarryTransition { root, id, kind, pre_hash, post_hash }
}

/// The calls that carry the records of the first `n` kinds.
pub open spec fn carry_calls(
    root: Seq<char>,
    id: Seq<char>,
    kinds: Seq<Seq<char>>,
    pre_hash: Seq<char>,
    post_hash: Seq<char>,
    n: nat,
) -> Seq<HostCall> {
    Seq::new(n, |i: int| carry_call(root, id, kinds[i], pre_hash, post_hash))
}

/// Whether carrying records of kinds across a transition took an engine from
/// `pre` to `post` with the answer `r`. The first that fails ends it.
pub open spec fn carries_kinds<B, H: Host>(
    pre: Engine<B, H>,
    root: Seq<char>,
    id: Seq<char>,
    kinds: Seq<Seq<char>>,
    pre_hash: Seq<char>,
    post_hash: Seq<char>,
    post: Engine<B, H>,
    r: Result<usize, EngineError>,
) -> bool {
    exists|replies: Seq<Result<bool, String>>| #[trigger]
        were_told(&pre.host, root, id, kinds, pre_hash, post_hash, replies) && asked(
            pre,
            post,
            carry_calls(root, id, kinds, pre_hash, post_hash, replies.len()),
        ) && (match r {
            Ok(n) => replies.len() == kinds.len() && (forall|i: int|
                0 <= i < replies.len() ==> (#[trigger] replies[i]) is Ok) && n == carried_count(
                replies,
            ),
            Err(e) => replies.len() > 0 && (replies.last() matches Err(m) && (e
                matches EngineError::CheckNotRecorded { reason } && reason@
                == "ledger carry of the `"@ + kinds[replies.len() - 1]
                + "` record across the transition of "@ + id + " failed: "@ + m@)),
        })
}

/// Whether the ledger may have answered this to carrying the first of the
/// kinds, one after the other.
pub open spec fn were_told<H: Host>(
    h: &Surroundings<H>,
    root: Seq<char>,
    id: Seq<char>,
    kinds: Seq<Seq<char>>,
    pre_hash: Seq<char>,
    post_hash: Seq<char>,
    replies: Seq<Result<bool, String>>,
) -> bool {
    replies.len() <= kinds.len() && forall|i: int|
        0 <= i < replies.len() ==> carry_transition_reply(
            h,
            root,
            id,
            kinds[i],
            pre_hash,
            post_hash,
            #[trigger] replies[i],
        )
}

impl<B: MemBackend, H: Host> Engine<B, H> {
    /// Record a check of one entity under a kind of the engine.
    pub fn record_check(
        &mut self,
        mem_name: &str,
        entity_id: &str,
        verdict: Verdict,
        kind: CheckKind,
        method: Option<&str>,
        actor: Actor,
        client: Option<&ClientId>,
    ) -> (r: Result<CheckRecord, EngineError>)
        ensures
            records_check(
                *old(self),
                mem_name@,
                entity_id@,
                verdict,
                RecordKind::Engine(kind),
                opt_str(method),
                None,
                actor,
                client,
                *final(self),
                r,
            ),
    {
        self.record_check_with(
            mem_name,
            entity_id,
            verdict,
            &RecordKind::Engine(kind),
            method,
            None,
            actor,
            client,
        )
    }

    /// What a finding is answered before anything is recorded.
    fn answer_finding(
        &self,
        finding: &Option<CheckFinding>,
        verdict: Verdict,
        method: Option<&str>,
    ) -> (r: Result<(), EngineError>)
        ensures
            answers_finding(&self.host, *finding, verdict, opt_str(method), r),
    {
        let f = match finding {
            Some(f) => f,
            None => {
                return Ok(());
            },
        };
        let valid = self.host.validate_finding(f);
        let ghost told = valid;
        assert(finding_reply(&self.host, *f, told));
        if let Err(reason) = valid {
            return Err(EngineError::InvalidCheckFinding { reason });
        }
        let conditions = self.host.health_conditions();
        assert(conditions_reply(&self.host, conditions));
        let r = judge_finding(&f.code, &conditions, verdict, method);
        assert(answers_code(&self.host, f.code@, verdict, opt_str(method), r));
        r
    }

    /// What a check would be recorded of, or why none can be.
    pub fn check_subject(&self, mem_name: &str, entity_id: &str, kind: &RecordKind) -> (r: Result<
        Subject,
        EngineError,
    >)
        ensures
            is_subject(*self, mem_name@, entity_id@, *kind, r),
    {
        let at = match self.find_mount(mem_name) {
            Ok(i) => i,
            Err(e) => {
                return Err(e);
            },
        };
        let mount = &self.mounts[at].mount;
        if mount.capability != MountCapability::Write {
            return Err(EngineError::ReadOnlyMount(own(mem_name)));
        }
        let binds = matches!(kind, RecordKind::Engine(CheckKind::Conformance));
        let schema_ref = if binds {
            match &mount.schema {
                Some(s) => Some(s.as_display()),
                None => {
                    return Err(
                        EngineError::InvalidInput(
                            "a conformance check binds to the mem's schema pin, and mem `".to_owned().concat(
                            mem_name).concat("` declares none"),
                        ),
                    );
                },
            }
        } else {
            None
        };
        let entity_hash = match find_entity(&self.store.entities, mem_name, entity_id) {
            Some(e) => e.content_hash.clone(),
            None => {
                return Err(EngineError::NotFound { id: own(entity_id) });
            },
        };
        match &self.workspace_root {
            Some(root) => Ok(Subject { entity_hash, schema_ref, root: root.clone() }),
            None => Err(
                EngineError::CheckNotRecorded {
                    reason: own("engine has no workspace root — no durable check store"),
                },
            ),
        }
    }

    /// Record a check of one entity: under a kind of the engine or of the
    /// caller, with a finding or without. Nothing but the ledger changes, and
    /// a check that the ledger did not take is refused.
    pub fn record_check_with(
        &mut self,
        mem_name: &str,
        entity_id: &str,
        verdict: Verdict,
        kind: &RecordKind,
        method: Option<&str>,
        finding: Option<CheckFinding>,
        actor: Actor,
        client: Option<&ClientId>,
    ) -> (r: Result<CheckRecord, EngineError>)
        ensures
            records_check(
                *old(self),
                mem_name@,
                entity_id@,
                verdict,
                *kind,
                opt_str(method),
                finding,
                actor,
                client,
                *final(self),
                r,
            ),
    {
        let ghost pre = *self;
        let ghost given = finding;
        let found = self.answer_finding(&finding, verdict, method);
        let ghost answer = found;
        assert(answers_finding(&pre.host, given, verdict, opt_str(method), answer));
        if let Err(e) = found {
            return Err(e);
        }
        let subject = self.check_subject(mem_name, entity_id, kind);
        let ghost told = subject;
        assert(is_subject(pre, mem_name@, entity_id@, *kind, told));
        let subject = match subject {
            Ok(s) => s,
            Err(e) => {
                let r = Err(e);
                assert(records_subject(
                    pre,
                    mem_name@,
                    entity_id@,
                    verdict,
                    *kind,
                    opt_str(method),
                    given,
                    actor,
                    client,
                    *self,
                    r,
                ));
                return r;
            },
        };
        let ghost subj = subject;
        let ts = self.host.now();
        assert(now_reply(&pre.host, ts));
        let told_method = match method {
            Some(m) => {
                let t = trimmed(m);
                if chars_of(&t).len() > 0 {
                    Some(t)
                } else {
                    None
                }
            },
            None => None,
        };
        let told_client = match client {
            Some(c) => Some(c.name.clone().concat("@").concat(&c.version)),
            None => None,
        };
        let role = match &self.current_role {
            Some(r) => r.clone(),
            None => own("unspecified"),
        };
        let is_verification = matches!(kind, RecordKind::Engine(CheckKind::Verification));
        let told_kind = if is_verification {
            None
        } else {
            Some(kind.as_wire())
        };
        let record = CheckRecord {
            ts,
            entity: own(entity_id),
            verdict: own(verdict.as_str()),
            method: told_method,
            entity_hash: subject.entity_hash,
            actor: own(actor.as_trailer()),
            client: told_client,
            role,
            identity: own_opt(&self.current_identity),
            kind: told_kind,
            schema_ref: subject.schema_ref,
            finding,
            renamed_from: None,
            carried_from: None,
        };
        assert(is_record(
            pre,
            subj,
            ts,
            entity_id@,
            verdict,
            *kind,
            opt_str(method),
            given,
            actor,
            client,
            record,
        ));
        let kept = self.host.ledger_append(&subject.root, &record);
        let ghost taken = kept;
        let ghost rec = record;
        assert(append_reply(&pre.host, subj.root@, rec, taken));
        assert(took_record(&pre.host, subj.root@, ts, rec, taken));
        assert(asked(pre, *self, seq![HostCall::Append { root: subj.root@, record: rec }]));
        let r = match kept {
            Ok(_) => Ok(record),
            Err(m) => Err(
                EngineError::CheckNotRecorded {
                    reason: "ledger append failed: ".to_owned().concat(&m),
                },
            ),
        };
        assert(records_subject(
            pre,
            mem_name@,
            entity_id@,
            verdict,
            *kind,
            opt_str(method),
            given,
            actor,
            client,
            *self,
            r,
        ));
        r
    }

    /// Carry the ledger across a rename, so that the renamed entity keeps its
    /// history. The lines keep their hashes: a rename changes content, and no
    /// verdict is renewed for it. How many lines were carried.
    pub fn carry_checks_across_rename(&mut self, old_id: &EntityId, new_id: &EntityId) -> (r:
        Result<usize, EngineError>)
        ensures
            match old(self).workspace_root {
                None => *final(self) == *old(self) && r == Ok::<usize, EngineError>(0),
                Some(root) => asked(
                    *old(self),
                    *final(self),
                    seq![
                        (HostCall::CarryRename { root: root@, from: old_id.0@, to: new_id.0@ }),
                    ],
                ) && exists|reply: Result<usize, String>| #[trigger]
                    carry_rename_reply(&old(self).host, root@, old_id.0@, new_id.0@, reply)
                        && match reply {
                        Ok(n) => r == Ok::<usize, EngineError>(n),
                        Err(m) => r matches Err(EngineError::CheckNotRecorded { reason })
                            && reason@ == "ledger carry across rename "@ + old_id.0@ + " → "@
                            + new_id.0@ + " failed: "@ + m@,
                    },
            },
            carries_rename(*old(self), old_id.0@, new_id.0@, *final(self), r),
    {
        let ghost pre = *self;
        let root = match &self.workspace_root {
            Some(root) => root,
            None => {
                return Ok(0);
            },
        };
        let reply = self.host.ledger_carry_rename(root, &old_id.0, &new_id.0);
        let ghost told = reply;
        assert(carry_rename_reply(&pre.host, root@, old_id.0@, new_id.0@, told));
        assert(asked(
            pre,
            *self,
            seq![HostCall::CarryRename { root: root@, from: old_id.0@, to: new_id.0@ }],
        ));
        match reply {
            Ok(n) => Ok(n),
            Err(m) => Err(
                EngineError::CheckNotRecorded {
                    reason: "ledger carry across rename ".to_owned().concat(&old_id.0).concat(
                        " → ",
                    ).concat(&new_id.0).concat(" failed: ").concat(&m),
                },
            ),
        }
    }

    /// The kinds of the self-check gates that a prepared write passes on the
    /// strength of a fresh and independent record.
    pub fn licensed_self_check_kinds(&self, next: &Entity, type_def: &TypeDefinition) -> (r: Vec<
        String,
    >)
        ensures
            licenses(&self.host, type_def.constraints@, *next, texts(r@)),
    {
        let cs = &type_def.constraints;
        let mut kinds: Vec<String> = Vec::new();
        let ghost mut confirmed: Seq<bool> = Seq::empty();
        assert(texts(kinds@) =~= licensed(cs@.take(0), *next, confirmed));
        for i in 0..cs.len()
            invariant
                confirmed.len() == i,
                forall|k: int|
                    0 <= k < i ==> gate_answered(&self.host, cs@, *next, confirmed, k),
                texts(kinds@) == licensed(cs@.take(i as int), *next, confirmed),
        {
            let ghost past = confirmed;
            let ghost held = texts(kinds@);
            assert(cs@.take(i + 1).drop_last() =~= cs@.take(i as int));
            let mut yes = false;
            if let ConstraintDef::TransitionRequiresSelfCheck {
                field,
                to_value,
                check_kind,
            } = &cs[i] {
                let triggered = match next.meta(field) {
                    Some(v) => same(&v.to_frontmatter_string(), to_value),
                    None => false,
                };
                if triggered && !listed(&kinds, check_kind) {
                    yes = self.host.check_confirms(next, check_kind);
                    assert(confirms_reply(&self.host, *next, check_kind@, yes));
                    if yes {
                        kinds.push(check_kind.clone());
                        assert(texts(kinds@) =~= held.push(check_kind@));
                    }
                }
            }
            proof {
                confirmed = past.push(yes);
                assert(confirmed.drop_last() =~= past);
                assert forall|k: int| 0 <= k < i + 1 implies gate_answered(
                    &self.host,
                    cs@,
                    *next,
                    confirmed,
                    k,
                ) by {
                    assert(confirmed.take(k) =~= past.take(k));
                    assert(past.take(i as int) =~= past);
                    if k < i {
                        assert(gate_answered(&self.host, cs@, *next, past, k));
                    }
                }
            }
        }
        assert(cs@.take(cs@.len() as int) =~= cs@);
        kinds
    }

    /// Carry the records that licensed a transition across the write that they
    /// licensed, so that it does not make them stale. How many were carried.
    pub fn carry_checks_across_transition(
        &mut self,
        id: &EntityId,
        kinds: &Vec<String>,
        pre_hash: &str,
        post_hash: &str,
    ) -> (r: Result<usize, EngineError>)
        ensures
            if kinds@.len() == 0 || pre_hash@ == post_hash@ || old(self).workspace_root is None {
                *final(self) == *old(self) && r == Ok::<usize, EngineError>(0)
            } else {
                carries_kinds(
                    *old(self),
                    old(self).workspace_root->0@,
                    id.0@,
                    texts(kinds@),
                    pre_hash@,
                    post_hash@,
                    *final(self),
                    r,
                )
            },
            carries_across(
                *old(self),
                id.0@,
                texts(kinds@),
                pre_hash@,
                post_hash@,
                *final(self),
                r,
            ),
    {
        let ghost pre = *self;
        if kinds.len() == 0 || same(pre_hash, post_hash) {
            return Ok(0);
        }
        let root = match &self.workspace_root {
            Some(root) => root.clone(),
            None => {
                return Ok(0);
            },
        };
        let ghost kv = texts(kinds@);
        assert(asked(
            pre,
            *self,
            carry_calls(root@, id.0@, kv, pre_hash@, post_hash@, 0),
        ));
        let ghost mut replies: Seq<Result<bool, String>> = Seq::empty();
        let mut carried: usize = 0;
        for i in 0..kinds.len()
            invariant
                kv == texts(kinds@),
                kinds@.len() > 0,
                pre_hash@ != post_hash@,
                pre == *old(self),
                pre.workspace_root == Some(root),
                replies.len() == i,
                carried <= i,
                carried == carried_count(replies),
                asked(
                    pre,
                    *self,
                    carry_calls(root@, id.0@, kv, pre_hash@, post_hash@, i as nat),
                ),
                were_told(&pre.host, root@, id.0@, kv, pre_hash@, post_hash@, replies),
                forall|k: int| 0 <= k < i ==> (#[trigger] replies[k]) is Ok,
        {
            let ghost past = replies;
            assert(kv[i as int] == kinds@[i as int]@);
            let reply = self.host.ledger_carry_transition(
                &root,
                &id.0,
                &kinds[i],
                pre_hash,
                post_hash,
            );
            proof {
                assert(asked(
                    pre,
                    *self,
                    carry_calls(root@, id.0@, kv, pre_hash@, post_hash@, (i + 1) as nat),
                )) by {
                    assert(carry_calls(
                        root@,
                        id.0@,
                        kv,
                        pre_hash@,
                        post_hash@,
                        (i + 1) as nat,
                    ) =~= carry_calls(root@, id.0@, kv, pre_hash@, post_hash@, i as nat).push(
                        carry_call(root@, id.0@, kv[i as int], pre_hash@, post_hash@),
                    ));
                    assert(self.host.calls() =~= pre.host.calls() + carry_calls(
                        root@,
                        id.0@,
                        kv,
                        pre_hash@,
                        post_hash@,
                        (i + 1) as nat,
                    ));
                }
                assert(carry_transition_reply(
                    &pre.host,
                    root@,
                    id.0@,
                    kv[i as int],
                    pre_hash@,
                    post_hash@,
                    reply,
                ));
                replies = past.push(reply);
                assert(replies.drop_last() =~= past);
                assert(were_told(
                    &pre.host,
                    root@,
                    id.0@,
                    kv,
                    pre_hash@,
                    post_hash@,
                    replies,
                ));
            }
            match reply {
                Ok(moved) => {
                    if moved {
                        carried = carried + 1;
                    }
                },
                Err(m) => {
                    let e = EngineError::CheckNotRecorded {
                        reason: "ledger carry of the `".to_owned().concat(&kinds[i]).concat(
                            "` record across the transition of ",
                        ).concat(&id.0).concat(" failed: ").concat(&m),
                    };
                    return Err(e);
                },
            }
        }
        Ok(carried)
    }

    /// The records that checks of an entity are read from.
    fn check_records(&self, mem_name: &str, entity_id: &str) -> (r: Vec<CheckRecord>)
        ensures
            reads_records(*self, mem_name@, entity_id@, r@),
    {
        if let Some(at) = self.position(mem_name) {
            if let MountStorage::Archive { .. } = &self.mounts[at].mount.storage {
                let path = EntityId::canonical(entity_id).path();
                let mut out: Vec<CheckRecord> = Vec::new();
                if let Some(sealed) = &self.mounts[at].sealed_checks {
                    assert(sealed_at(sealed@.take(0), path@).len() == 0);
                    for i in 0..sealed.len()
                        invariant
                            out@.len() == sealed_at(sealed@.take(i as int), path@).len(),
                            forall|k: int|
                                0 <= k < out@.len() ==> is_unsealed(
                                    sealed_at(sealed@.take(i as int), path@)[k],
                                    entity_id@,
                                    #[trigger] out@[k],
                                ),
                    {
                        assert(sealed@.take(i + 1).drop_last() =~= sealed@.take(i as int));
                        let sc = &sealed[i];
                        if same(&sc.path, &path) {
                            let mut rec = sc.record.copy();
                            rec.entity = own(entity_id);
                            rec.kind = if same(&sc.kind, CheckKind::Verification.as_str()) {
                                None
                            } else {
                                Some(sc.kind.clone())
                            };
                            out.push(rec);
                        }
                    }
                    assert(sealed@.take(sealed@.len() as int) =~= sealed@);
                }
                return out;
            }
        }
        match &self.workspace_root {
            Some(root) => {
                let reply = self.host.ledger_records(root);
                assert(ledger_reply(&self.host, root@, reply));
                reply
            },
            None => Vec::new(),
        }
    }

    /// The newest record of an entity under a wire kind, from the one source
    /// that its mem has.
    pub fn latest_check_record(&self, mem_name: &str, entity_id: &str, kind: &str) -> (r: Option<
        CheckRecord,
    >)
        ensures
            tells_latest(*self, mem_name@, entity_id@, kind@, r),
    {
        let recs = self.check_records(mem_name, entity_id);
        assert(reads_records(*self, mem_name@, entity_id@, recs@));
        latest_record(&recs, entity_id, kind)
    }

    /// The newest record of an entity for each foreign kind, in the order of
    /// kinds, from the one source that its mem has.
    pub fn latest_foreign_checks(&self, mem_name: &str, entity_id: &str) -> (r: Vec<CheckRecord>)
        ensures
            exists|recs: Seq<CheckRecord>| #[trigger]
                reads_records(*self, mem_name@, entity_id@, recs) && r@ == foreign_latest(
                    recs,
                    entity_id@,
                ),
    {
        let recs = self.check_records(mem_name, entity_id);
        assert(reads_records(*self, mem_name@, entity_id@, recs@));
        latest_foreign(&recs, entity_id)
    }

    /// Where an entity stands with its verification, and the newest record of
    /// it.
    pub fn entity_check_state(&self, mem_name: &str, entity_id: &str) -> (r: Result<
        (CheckState, Option<CheckRecord>),
        EngineError,
    >)
        ensures
            match self.mount_of(mem_name@) {
                None => r matches Err(e) && says_unknown(self.quarantined@, mem_name@, e),
                Some(m) => match entity_in(self.store.entities@, mem_name@, entity_id@, 0) {
                    None => r matches Err(EngineError::NotFound { id }) && id@ == entity_id@,
                    Some(e) => r matches Ok(pair) && tells_latest(
                        *self,
                        mem_name@,
                        entity_id@,
                        CheckKind::Verification.token(),
                        pair.1,
                    ) && pair.0 == state_of(pair.1, e.content_hash@),
                },
            },
            tells_state(*self, mem_name@, entity_id@, CheckKind::Verification, r),
    {
        if let Err(e) = self.find_mount(mem_name) {
            return Err(e);
        }
        let hash = match find_entity(&self.store.entities, mem_name, entity_id) {
            Some(e) => e.content_hash.clone(),
            None => {
                return Err(EngineError::NotFound { id: own(entity_id) });
            },
        };
        let latest = self.latest_check_record(
            mem_name,
            entity_id,
            CheckKind::Verification.as_str(),
        );
        let state = derive_state(latest.as_ref(), &hash);
        Ok((state, latest))
    }

    /// Where an entity stands with its conformance to the schema, and the
    /// newest record of it. Another pin makes the record stale, as other
    /// content does.
    pub fn entity_conformance_state(&self, mem_name: &str, entity_id: &str) -> (r: Result<
        (CheckState, Option<CheckRecord>),
        EngineError,
    >)
        ensures
            match self.mount_of(mem_name@) {
                None => r matches Err(e) && says_unknown(self.quarantined@, mem_name@, e),
                Some(m) => match entity_in(self.store.entities@, mem_name@, entity_id@, 0) {
                    None => r matches Err(EngineError::NotFound { id }) && id@ == entity_id@,
                    Some(e) => r matches Ok(pair) && tells_latest(
                        *self,
                        mem_name@,
                        entity_id@,
                        CheckKind::Conformance.token(),
                        pair.1,
                    ) && pair.0 == pinned_state_of(
                        pair.1,
                        e.content_hash@,
                        match m.mount.schema {
                            Some(s) => Some(s.display()),
                            None => None,
                        },
                    ),
                },
            },
            tells_state(*self, mem_name@, entity_id@, CheckKind::Conformance, r),
    {
        let at = match self.find_mount(mem_name) {
            Ok(i) => i,
            Err(e) => {
                return Err(e);
            },
        };
        let pin = match &self.mounts[at].mount.schema {
            Some(s) => Some(s.as_display()),
            None => None,
        };
        let hash = match find_entity(&self.store.entities, mem_name, entity_id) {
            Some(e) => e.content_hash.clone(),
            None => {
                return Err(EngineError::NotFound { id: own(entity_id) });
            },
        };
        let latest = self.latest_check_record(
            mem_name,
            entity_id,
            CheckKind::Conformance.as_str(),
        );
        let state = derive_state_pinned(latest.as_ref(), &hash, &pin);
        Ok((state, latest))
    }
}

/// Whether `r` may be the newest record of an entity under a wire kind.
pub open spec fn tells_latest<B, H: Host>(
    engine: Engine<B, H>,
    mem: Seq<char>,
    id: Seq<char>,
    kind: Seq<char>,
    r: Option<CheckRecord>,
) -> bool {
    exists|recs: Seq<CheckRecord>| #[trigger]
        reads_records(engine, mem, id, recs) && r == latest_of(recs, id, kind)
}

/// A check that was just recorded is the newest of its kind, and no other
/// kind's newest record moves for it.
pub proof fn law_recorded_check_is_newest(
    recs: Seq<CheckRecord>,
    rec: CheckRecord,
    other: Seq<char>,
)
    ensures
        latest_of(recs.push(rec), rec.entity@, rec.wire_kind()) == Some(rec),
        other != rec.wire_kind() ==> latest_of(recs.push(rec), rec.entity@, other) == latest_of(
            recs,
            rec.entity@,
            other,
        ),
{
    assert(recs.push(rec).drop_last() =~= recs);
}

/// A check whose finding, mem or entity is refused appends nothing; one that is
/// told of was appended, and nothing else was asked for.
pub proof fn law_refused_check_appends_nothing<B, H: Host>(
    pre: Engine<B, H>,
    mem: Seq<char>,
    id: Seq<char>,
    verdict: Verdict,
    kind: RecordKind,
    method: Option<Seq<char>>,
    finding: Option<CheckFinding>,
    actor: Actor,
    client: Option<&ClientId>,
    post: Engine<B, H>,
    r: Result<CheckRecord, EngineError>,
)
    requires
        records_check(pre, mem, id, verdict, kind, method, finding, actor, client, post, r),
    ensures
        r matches Err(e) ==> e is CheckNotRecorded || post == pre,
        r matches Ok(rec) ==> pre.workspace_root is Some && asked(
            pre,
            post,
            seq![HostCall::Append { root: pre.workspace_root->0@, record: rec }],
        ),
        post == (Engine { host: post.host, ..pre }),
{
}

/// A check recorded of an entity's present content reads as its verdict says:
/// the entity stands as checked or as failed.
pub proof fn law_fresh_check_reads_as_recorded(
    recs: Seq<CheckRecord>,
    rec: CheckRecord,
    hash: Seq<char>,
)
    requires
        rec.entity_hash@ == hash,
    ensures
        rec.verdict@ == Verdict::Passed.token() ==> state_of(
            latest_of(recs.push(rec), rec.entity@, rec.wire_kind()),
            hash,
        ) == CheckState::CheckedOk,
        rec.verdict@ != Verdict::Passed.token() ==> state_of(
            latest_of(recs.push(rec), rec.entity@, rec.wire_kind()),
            hash,
        ) == CheckState::CheckFailed,
{
    law_recorded_check_is_newest(recs, rec, rec.wire_kind());
}

/// Whether `r` tells where an entity stands with the checks of a kind: by the
/// newest record of the kind, under the mem's pin where the kind binds to it.
pub open spec fn tells_state<B, H: Host>(
    engine: Engine<B, H>,
    mem: Seq<char>,
    id: Seq<char>,
    kind: CheckKind,
    r: Result<(CheckState, Option<CheckRecord>), EngineError>,
) -> bool {
    match engine.mount_of(mem) {
        None => r matches Err(e) && says_unknown(engine.quarantined@, mem, e),
        Some(m) => match entity_in(engine.store.entities@, mem, id, 0) {
            None => r matches Err(EngineError::NotFound { id: i }) && i@ == id,
            Some(e) => r matches Ok(pair) && tells_latest(engine, mem, id, kind.token(), pair.1)
                && pair.0 == (if kind == CheckKind::Conformance {
                pinned_state_of(
                    pair.1,
                    e.content_hash@,
                    match m.mount.schema {
                        Some(s) => Some(s.display()),
                        None => None,
                    },
                )
            } else {
                state_of(pair.1, e.content_hash@)
            }),
        },
    }
}

/// Whether checks were carried across a change of content from `pre` to
/// `post`. Where there is nothing to carry, nothing is asked.
pub open spec fn carries_across<B, H: Host>(
    pre: Engine<B, H>,
    id: Seq<char>,
    kinds: Seq<Seq<char>>,
    pre_hash: Seq<char>,
    post_hash: Seq<char>,
    post: Engine<B, H>,
    r: Result<usize, EngineError>,
) -> bool {
    if kinds.len() == 0 || pre_hash == post_hash || pre.workspace_root is None {
        post == pre && r == Ok::<usize, EngineError>(0)
    } else {
        carries_kinds(pre, pre.workspace_root->0@, id, kinds, pre_hash, post_hash, post, r)
    }
}

/// Whether checks were carried across a rename from `pre` to `post`.
pub open spec fn carries_rename<B, H: Host>(
    pre: Engine<B, H>,
    from: Seq<char>,
    to: Seq<char>,
    post: Engine<B, H>,
    r: Result<usize, EngineError>,
) -> bool {
    match pre.workspace_root {
        None => post == pre && r == Ok::<usize, EngineError>(0),
        Some(root) => asked(pre, post, seq![HostCall::CarryRename { root: root@, from, to }])
            && exists|reply: Result<usize, String>| #[trigger]
            carry_rename_reply(&pre.host, root@, from, to, reply) && match reply {
                Ok(n) => r == Ok::<usize, EngineError>(n),
                Err(m) => r is Err,
            },
    }
}

} // verus!
