//! Merge conflicts in folder mems: finding entity files that carry conflict
//! markers, taking one side of a conflict, and writing that side as an
//! attributed mutation.

use crate::backend::{
    commit_reply, provenance_reply, reads_reply, write_reply, Actor, BackendError, ClientId,
    CommitContext, MemBackend, Origin, Provenance, Storage, StorageCall,
};
use crate::boot::{loads_file, probed_hint, read_entries, read_failures, with_entities};
use crate::drift::{
    lemma_same_names, records_write, reload_lands, reloads, swaps_mem, without_mem, MemReload,
};
use crate::engine::{
    asked, lemma_mount_index, quarantine_index, says_unknown, schema_of, Engine, MountedBackend,
};
use crate::entity::{
    entity_of, file_path_to_id, id_mem, joined_id, lemma_push_entity, lemma_put_entity, without_md,
    Entity, EntityId,
};
use crate::error::{EngineError, ParseError, ValidationError};
use crate::host::{
    catch_all_reply, content_reply, directory_reply, entry_type_reply, keys_reply, now_reply,
    parse_one_reply, parse_reply, stamp_reply, Host, HostCall, LoadResult, Surroundings,
};
use crate::markdown::{code_masked, mask_code_blocks_and_spans};
use crate::ops::{SourceEntry, WarningHint};
use crate::schema::{Schema, TypeDefinition};
use crate::sort::{lemma_same_members, sorted, stable_sort, views, Ranked};
use crate::text::{
    before, begins, chars_of, closed_lines, decimal, decimal_of, is_line, join, join_list,
    law_lines_read_back, lemma_closed_join, lex_less, lines, lines_of, occurs_at, opt_str, own,
    own_opt, same, stands_at, starts, texts, trim_end,
};
use crate::workspace::{MountCapability, MountStorage};
use std::sync::Arc;
use vstd::prelude::*;

verus! {

/// Which side of a merge conflict to keep.
#[derive(Debug, Clone, Copy, PartialEq, Eq, Structural)]
pub enum ConflictSide {
    Ours,
    Theirs,
}

/// The side that a wire token names.
pub open spec fn side_named(s: Seq<char>) -> Option<ConflictSide> {
    if s == "ours"@ {
        Some(ConflictSide::Ours)
    } else if s == "theirs"@ {
        Some(ConflictSide::Theirs)
    } else {
        None
    }
}

impl ConflictSide {
    /// The wire token.
    pub open spec fn token(&self) -> Seq<char> {
        match self {
            ConflictSide::Ours => "ours"@,
            ConflictSide::Theirs => "theirs"@,
        }
    }

    /// The side that a wire token names.
    pub fn from_wire(s: &str) -> (r: Option<ConflictSide>)
        ensures
            r == (if s@ == "ours"@ {
                Some(ConflictSide::Ours)
            } else if s@ == "theirs"@ {
                Some(ConflictSide::Theirs)
            } else {
                None
            }),
            r == side_named(s@),
    {
        if same(s, "ours") {
            Some(ConflictSide::Ours)
        } else if same(s, "theirs") {
            Some(ConflictSide::Theirs)
        } else {
            None
        }
    }

    /// The wire token.
    pub fn as_wire(self) -> (r: &'static str)
        ensures
            r@ == self.token(),
    {
        match self {
            ConflictSide::Ours => "ours",
            ConflictSide::Theirs => "theirs",
        }
    }
}

/// An entity file that carries conflict markers.
#[derive(Debug, Clone)]
pub struct ConflictedEntity {
    /// The id that the file's path gives.
    pub id: EntityId,
    pub mem: String,
    pub file_path: String,
}

/// What a resolution wrote.
#[derive(Debug)]
pub struct ResolveConflictOutcome {
    pub id: EntityId,
    /// The side that was kept.
    pub side: &'static str,
    pub write_id: String,
    pub warnings: Vec<WarningHint>,
}

// ---------------------------------------------------------------------
// Taking a side
// ---------------------------------------------------------------------

/// Where a line stands in a conflict.
pub enum Region {
    Outside,
    Ours,
    Base,
    Theirs,
}

/// The region behind a line; nothing where the line ends a conflict before
/// its sides were separated.
pub open spec fn region_after(region: Region, line: Seq<char>) -> Option<Region> {
    match region {
        Region::Outside => if starts(line, "<<<<<<< "@) {
            Some(Region::Ours)
        } else {
            Some(Region::Outside)
        },
        Region::Ours => if starts(line, "|||||||"@) {
            Some(Region::Base)
        } else if trim_end(line) == "======="@ {
            Some(Region::Theirs)
        } else if starts(line, ">>>>>>> "@) {
            None
        } else {
            Some(Region::Ours)
        },
        Region::Base => if trim_end(line) == "======="@ {
            Some(Region::Theirs)
        } else {
            Some(Region::Base)
        },
        Region::Theirs => if starts(line, ">>>>>>> "@) {
            Some(Region::Outside)
        } else {
            Some(Region::Theirs)
        },
    }
}

/// Whether a line belongs to a side: it stands outside every conflict, or in
/// the part of that side, and is no marker.
pub open spec fn belongs(region: Region, line: Seq<char>, side: ConflictSide) -> bool {
    match region {
        Region::Outside => !starts(line, "<<<<<<< "@),
        Region::Ours => side == ConflictSide::Ours && region_after(region, line) == Some(
            Region::Ours,
        ),
        Region::Base => false,
        Region::Theirs => side == ConflictSide::Theirs && region_after(region, line) == Some(
            Region::Theirs,
        ),
    }
}

/// The region behind the first `n` lines.
pub open spec fn region_at(ls: Seq<Seq<char>>, n: nat) -> Option<Region>
    decreases n,
{
    if n == 0 {
        Some(Region::Outside)
    } else {
        match region_at(ls, (n - 1) as nat) {
            Some(region) => region_after(region, ls[n - 1]),
            None => None,
        }
    }
}

/// The lines among the first `n` that belong to a side.
pub open spec fn side_lines(ls: Seq<Seq<char>>, n: nat, side: ConflictSide) -> Seq<Seq<char>>
    decreases n,
{
    if n == 0 {
        Seq::empty()
    } else {
        let m = (n - 1) as nat;
        let rest = side_lines(ls, m, side);
        match region_at(ls, m) {
            Some(region) => if belongs(region, ls[n - 1], side) {
                rest.push(ls[n - 1])
            } else {
                rest
            },
            None => rest,
        }
    }
}

/// The first line from `n` on that ends a conflict before its sides were
/// separated.
pub open spec fn broken_line(ls: Seq<Seq<char>>, n: nat) -> Option<nat>
    decreases ls.len() - n,
{
    if n >= ls.len() {
        None
    } else if region_at(ls, n) is Some && region_at(ls, n + 1) is None {
        Some(n)
    } else {
        broken_line(ls, n + 1)
    }
}

/// `s` with a line feed at its end where `like` has one.
pub open spec fn ended_like(s: Seq<char>, like: Seq<char>) -> Seq<char> {
    if like.len() > 0 && like.last() == '\n' && !(s.len() > 0 && s.last() == '\n') {
        s.push('\n')
    } else {
        s
    }
}

/// One side of a text with conflicts, or what is malformed in it.
pub open spec fn side_of(content: Seq<char>, side: ConflictSide) -> Result<Seq<char>, Seq<char>> {
    let ls = lines(content);
    match broken_line(ls, 0) {
        Some(n) => Err("line "@ + decimal(n + 1) + ": end marker before `=======` separator"@),
        None => if region_at(ls, ls.len()) != Some(Region::Outside) {
            Err("unterminated conflict block (no `>>>>>>> ` end marker)"@)
        } else {
            Ok(ended_like(join(side_lines(ls, ls.len(), side), "\n"@), content))
        },
    }
}

/// `s` without the white space at its end is `what`.
fn ends_trimmed_as(s: &str, what: &str) -> (r: bool)
    ensures
        r == (trim_end(s@) == what@),
{
    let x = chars_of(s);
    let mut to: usize = x.len();
    assert(x@.take(to as int) =~= s@);
    while to > 0 && crate::text::blank(x[to - 1])
        invariant
            to <= x@.len(),
            trim_end(s@) == trim_end(x@.take(to as int)),
        decreases to,
    {
        assert(x@.take(to as int).drop_last() =~= x@.take(to - 1));
        to = to - 1;
    }
    let t = crate::text::slice_of(&x, 0, to);
    proof {
        assert(t@ =~= x@.take(to as int));
        if to > 0 {
            assert(x@.take(to as int).last() == x@[to - 1]);
        }
    }
    same(&t, what)
}

/// Take one side of the conflicts in a file. Lines of a base section belong
/// to neither side. A conflict that is not closed, or closed before its sides
/// are separated, is malformed.
pub fn extract_conflict_side(content: &str, side: ConflictSide) -> (r: Result<String, String>)
    ensures
        match r {
            Ok(s) => side_of(content@, side) == Ok::<Seq<char>, Seq<char>>(s@),
            Err(m) => side_of(content@, side) == Err::<Seq<char>, Seq<char>>(m@),
        },
{
    let ls = lines_of(content);
    let ghost lv = texts(ls@);
    let mut region = Region::Outside;
    let mut out: Vec<String> = Vec::new();
    assert(texts(out@) =~= side_lines(lv, 0, side));
    for n in 0..ls.len()
        invariant
            lv == texts(ls@),
            lv == lines(content@),
            region_at(lv, n as nat) == Some(region),
            texts(out@) == side_lines(lv, n as nat, side),
            broken_line(lv, 0) == broken_line(lv, n as nat),
    {
        let ghost kept = texts(out@);
        let ghost here = region;
        assert(lv[n as int] == ls@[n as int]@);
        let line = &ls[n];
        let keep = match region {
            Region::Outside => {
                if begins(line, "<<<<<<< ") {
                    region = Region::Ours;
                    false
                } else {
                    true
                }
            },
            Region::Ours => {
                if begins(line, "|||||||") {
                    region = Region::Base;
                    false
                } else if ends_trimmed_as(line, "=======") {
                    region = Region::Theirs;
                    false
                } else if begins(line, ">>>>>>> ") {
                    proof {
                        assert(region_at(lv, (n + 1) as nat) is None);
                    }
                    return Err(
                        "line ".to_owned().concat(&decimal_of((n as u64) + 1)).concat(
                            ": end marker before `=======` separator",
                        ),
                    );
                } else {
                    matches!(side, ConflictSide::Ours)
                }
            },
            Region::Base => {
                if ends_trimmed_as(line, "=======") {
                    region = Region::Theirs;
                }
                false
            },
            Region::Theirs => {
                if begins(line, ">>>>>>> ") {
                    region = Region::Outside;
                    false
                } else {
                    matches!(side, ConflictSide::Theirs)
                }
            },
        };
        assert(region_at(lv, (n + 1) as nat) == Some(region));
        assert(keep == belongs(here, lv[n as int], side));
        if keep {
            out.push(line.clone());
            assert(texts(out@) =~= kept.push(line@));
        }
    }
    let outside = matches!(region, Region::Outside);
    if !outside {
        return Err(own("unterminated conflict block (no `>>>>>>> ` end marker)"));
    }
    let mut resolved = join_list(&out, "\n");
    let x = chars_of(content);
    let y = chars_of(&resolved);
    let content_ends = x.len() > 0 && x[x.len() - 1] == '\n';
    let resolved_ends = y.len() > 0 && y[y.len() - 1] == '\n';
    if content_ends && !resolved_ends {
        resolved.push('\n');
    }
    Ok(resolved)
}

/// In a text without a start marker both sides are the text itself, line by
/// line.
pub proof fn law_sides_agree_without_conflict(content: Seq<char>, side: ConflictSide)
    requires
        forall|i: int|
            0 <= i < lines(content).len() ==> !starts(#[trigger] lines(content)[i], "<<<<<<< "@),
    ensures
        side_of(content, side) == Ok::<Seq<char>, Seq<char>>(
            ended_like(join(lines(content), "\n"@), content),
        ),
{
    let ls = lines(content);
    lemma_all_outside(ls, ls.len(), side);
    assert(ls.take(ls.len() as int) =~= ls);
    lemma_none_broken(ls, 0);
}

/// Without a start marker every line stands outside and belongs.
proof fn lemma_all_outside(ls: Seq<Seq<char>>, n: nat, side: ConflictSide)
    requires
        n <= ls.len(),
        forall|i: int| 0 <= i < ls.len() ==> !starts(#[trigger] ls[i], "<<<<<<< "@),
    ensures
        region_at(ls, n) == Some(Region::Outside),
        side_lines(ls, n, side) == ls.take(n as int),
    decreases n,
{
    if n > 0 {
        lemma_all_outside(ls, (n - 1) as nat, side);
        assert(!starts(ls[n - 1], "<<<<<<< "@));
        assert(ls.take(n as int) =~= ls.take(n - 1).push(ls[n - 1]));
    } else {
        assert(ls.take(0) =~= Seq::empty());
    }
}

/// Without a start marker no line is malformed.
proof fn lemma_none_broken(ls: Seq<Seq<char>>, n: nat)
    requires
        forall|i: int| 0 <= i < ls.len() ==> !starts(#[trigger] ls[i], "<<<<<<< "@),
    ensures
        broken_line(ls, n) is None,
    decreases ls.len() - n,
{
    if n < ls.len() {
        lemma_all_outside(ls, n + 1, ConflictSide::Ours);
        lemma_none_broken(ls, n + 1);
    }
}

/// No line belongs to both parts of a conflict: what one side keeps of a
/// conflict the other drops, and a base section is dropped by both.
pub proof fn law_sides_exclude_each_other(region: Region, line: Seq<char>)
    ensures
        region != Region::Outside ==> !(belongs(region, line, ConflictSide::Ours) && belongs(
            region,
            line,
            ConflictSide::Theirs,
        )),
        region == Region::Outside ==> belongs(region, line, ConflictSide::Ours) == belongs(
            region,
            line,
            ConflictSide::Theirs,
        ),
        region == Region::Base ==> !belongs(region, line, ConflictSide::Ours) && !belongs(
            region,
            line,
            ConflictSide::Theirs,
        ),
{
}

/// The lines among the first `n` that stand outside every conflict and open
/// none.
pub open spec fn outside_lines(ls: Seq<Seq<char>>, n: nat) -> Seq<Seq<char>>
    decreases n,
{
    if n == 0 {
        Seq::empty()
    } else {
        let m = (n - 1) as nat;
        let rest = outside_lines(ls, m);
        if region_at(ls, m) == Some(Region::Outside) && !starts(ls[n - 1], "<<<<<<< "@) {
            rest.push(ls[n - 1])
        } else {
            rest
        }
    }
}

/// Whether `at` picks the items of `part` out of `whole`, in order.
pub open spec fn picks(part: Seq<Seq<char>>, whole: Seq<Seq<char>>, at: Seq<int>) -> bool {
    &&& at.len() == part.len()
    &&& forall|i: int|
        0 <= i < part.len() ==> 0 <= #[trigger] at[i] < whole.len() && whole[at[i]] == part[i]
    &&& forall|i: int, j: int| 0 <= i < j < at.len() ==> (#[trigger] at[i]) < (#[trigger] at[j])
}

/// Whether `part` is `whole` with some items left out.
pub open spec fn thinned(part: Seq<Seq<char>>, whole: Seq<Seq<char>>) -> bool {
    exists|at: Seq<int>| #[trigger] picks(part, whole, at)
}

/// The lines of a side are picked from the first `n` lines, and the lines
/// outside are picked from those of the side.
proof fn lemma_side_is_thinned(ls: Seq<Seq<char>>, n: nat, side: ConflictSide) -> (r: (
    Seq<int>,
    Seq<int>,
))
    requires
        n <= ls.len(),
    ensures
        picks(side_lines(ls, n, side), ls, r.0),
        forall|i: int| 0 <= i < r.0.len() ==> (#[trigger] r.0[i]) < n,
        picks(outside_lines(ls, n), side_lines(ls, n, side), r.1),
    decreases n,
{
    if n == 0 {
        (Seq::empty(), Seq::empty())
    } else {
        let m = (n - 1) as nat;
        let (at, within) = lemma_side_is_thinned(ls, m, side);
        let before = side_lines(ls, m, side);
        let after = side_lines(ls, n, side);
        let keep = region_at(ls, m) is Some && belongs(region_at(ls, m)->0, ls[n - 1], side);
        let outer = region_at(ls, m) == Some(Region::Outside) && !starts(ls[n - 1], "<<<<<<< "@);
        let at2 = if keep {
            at.push(n - 1)
        } else {
            at
        };
        let within2 = if outer {
            within.push(before.len() as int)
        } else {
            within
        };
        assert(picks(after, ls, at2));
        assert(outer ==> keep);
        assert forall|i: int| 0 <= i < within.len() implies after[#[trigger] within[i]]
            == before[within[i]] by {}
        assert(picks(outside_lines(ls, n), after, within2)) by {
            assert forall|i: int| 0 <= i < within2.len() implies 0 <= #[trigger] within2[i]
                < after.len() && after[within2[i]] == outside_lines(ls, n)[i] by {
                if i < within.len() {
                    assert(within2[i] == within[i]);
                }
            }
        }
        (at2, within2)
    }
}

/// Both sides of a text can be taken, or neither can, for the same reason. A
/// side is the text's lines with some left out, and holds every line outside
/// the conflicts.
pub proof fn law_sides_stand_together(content: Seq<char>)
    ensures
        ({
            let ours = side_of(content, ConflictSide::Ours);
            let theirs = side_of(content, ConflictSide::Theirs);
            &&& ours is Ok == theirs is Ok
            &&& ours is Err ==> ours == theirs
        }),
        forall|side: ConflictSide| #[trigger]
            side_of(content, side) is Ok ==> ({
                let ls = lines(content);
                let kept = side_lines(ls, ls.len(), side);
                &&& side_of(content, side) == Ok::<Seq<char>, Seq<char>>(
                    ended_like(join(kept, "\n"@), content),
                )
                &&& thinned(kept, ls)
                &&& thinned(outside_lines(ls, ls.len()), kept)
            }),
{
    let ls = lines(content);
    assert forall|side: ConflictSide| #[trigger] side_of(content, side) is Ok implies ({
        let kept = side_lines(ls, ls.len(), side);
        &&& side_of(content, side) == Ok::<Seq<char>, Seq<char>>(
            ended_like(join(kept, "\n"@), content),
        )
        &&& thinned(kept, ls)
        &&& thinned(outside_lines(ls, ls.len()), kept)
    }) by {
        let (at, within) = lemma_side_is_thinned(ls, ls.len(), side);
        let kept = side_lines(ls, ls.len(), side);
        assert(picks(kept, ls, at));
        assert(picks(outside_lines(ls, ls.len()), kept, within));
    }
}

/// Whether a line is one of the markers that git writes around a conflict: a
/// start, a base or an end marker, or the separator with blanks behind it.
pub open spec fn is_marker(line: Seq<char>) -> bool {
    starts(line, "<<<<<<< "@) || starts(line, "|||||||"@) || starts(line, ">>>>>>> "@) || trim_end(
        line,
    ) == "======="@
}

/// Whether no line of a list is a marker.
pub open spec fn unmarked(ls: Seq<Seq<char>>) -> bool {
    forall|i: int| 0 <= i < ls.len() ==> !is_marker(#[trigger] ls[i])
}

/// Whether the lines of a region belong to a side.
pub open spec fn is_part(region: Region, side: ConflictSide) -> bool {
    region == Region::Outside || (region == Region::Ours && side == ConflictSide::Ours) || (region
        == Region::Theirs && side == ConflictSide::Theirs)
}

/// A run of unmarked lines stays in its region, and belongs to the side whose
/// part that is.
proof fn lemma_run(before: Seq<Seq<char>>, run: Seq<Seq<char>>, side: ConflictSide)
    requires
        unmarked(run),
        region_at(before, before.len()) is Some,
    ensures
        region_at(before + run, (before + run).len()) == region_at(before, before.len()),
        side_lines(before + run, (before + run).len(), side) == side_lines(
            before,
            before.len(),
            side,
        ) + (if is_part(region_at(before, before.len())->0, side) {
            run
        } else {
            Seq::empty()
        }),
    decreases run.len(),
{
    let kept = side_lines(before, before.len(), side);
    if run.len() == 0 {
        assert(before + run =~= before);
        assert(kept + run =~= kept);
        assert(kept + Seq::empty() =~= kept);
    } else {
        let head = run.drop_last();
        assert forall|i: int| 0 <= i < head.len() implies !is_marker(#[trigger] head[i]) by {
            assert(head[i] == run[i]);
        }
        lemma_run(before, head, side);
        let line = run[run.len() - 1];
        assert(!is_marker(line));
        assert(before + run =~= (before + head).push(line));
        lemma_line(before + head, line, side);
        assert((kept + head).push(line) =~= kept + run);
    }
}

/// What one line more does to the region and to the lines kept.
proof fn lemma_line(before: Seq<Seq<char>>, line: Seq<char>, side: ConflictSide)
    requires
        region_at(before, before.len()) is Some,
    ensures
        ({
            let ls = before.push(line);
            let region = region_at(before, before.len())->0;
            let kept = side_lines(before, before.len(), side);
            &&& region_at(ls, ls.len()) == region_after(region, line)
            &&& side_lines(ls, ls.len(), side) == (if belongs(region, line, side) {
                kept.push(line)
            } else {
                kept
            })
        }),
{
    let ls = before.push(line);
    lemma_same_front(before, ls, before.len(), side);
}

/// The lines of a text with one conflict. Without a base part `base` is
/// nothing; with one it is the base marker and the lines behind it.
pub open spec fn one_conflict(
    before: Seq<Seq<char>>,
    start: Seq<char>,
    ours: Seq<Seq<char>>,
    base: Option<(Seq<char>, Seq<Seq<char>>)>,
    separator: Seq<char>,
    theirs: Seq<Seq<char>>,
    end: Seq<char>,
    after: Seq<Seq<char>>,
) -> Seq<Seq<char>> {
    before + seq![start] + ours + (match base {
        Some((marker, lines)) => seq![marker] + lines,
        None => Seq::empty(),
    }) + seq![separator] + theirs + seq![end] + after
}

/// A marker of one kind is none of another.
proof fn lemma_markers_differ(line: Seq<char>)
    ensures
        starts(line, "<<<<<<< "@) ==> !starts(line, "|||||||"@) && !starts(line, ">>>>>>> "@)
            && trim_end(line) != "======="@,
        starts(line, "|||||||"@) ==> !starts(line, ">>>>>>> "@) && trim_end(line) != "======="@,
        starts(line, ">>>>>>> "@) ==> trim_end(line) != "======="@,
{
    reveal_strlit("<<<<<<< ");
    reveal_strlit("|||||||");
    reveal_strlit(">>>>>>> ");
    reveal_strlit("=======");
    lemma_trim_end_front(line);
    if starts(line, "<<<<<<< "@) {
        assert(line.subrange(0, 8)[0] == '<');
    }
    if starts(line, "|||||||"@) {
        assert(line.subrange(0, 7)[0] == '|');
    }
    if starts(line, ">>>>>>> "@) {
        assert(line.subrange(0, 8)[0] == '>');
    }
}

/// What is left of a text without the blanks at its end stands at its front.
proof fn lemma_trim_end_front(s: Seq<char>)
    ensures
        trim_end(s).len() <= s.len(),
        forall|i: int| 0 <= i < trim_end(s).len() ==> trim_end(s)[i] == s[i],
    decreases s.len(),
{
    if s.len() > 0 && crate::text::is_space(s.last()) {
        let shorter = s.drop_last();
        lemma_trim_end_front(shorter);
        assert forall|i: int| 0 <= i < trim_end(s).len() implies trim_end(s)[i] == s[i] by {
            assert(trim_end(shorter)[i] == shorter[i]);
        }
    }
}

/// What the lines of a text with one conflict give.
proof fn lemma_one_conflict(
    before: Seq<Seq<char>>,
    start: Seq<char>,
    ours: Seq<Seq<char>>,
    base: Option<(Seq<char>, Seq<Seq<char>>)>,
    separator: Seq<char>,
    theirs: Seq<Seq<char>>,
    end: Seq<char>,
    after: Seq<Seq<char>>,
    side: ConflictSide,
)
    requires
        unmarked(before),
        unmarked(ours),
        unmarked(theirs),
        unmarked(after),
        base matches Some(b) ==> starts(b.0, "|||||||"@) && unmarked(b.1),
        starts(start, "<<<<<<< "@),
        trim_end(separator) == "======="@,
        starts(end, ">>>>>>> "@),
    ensures
        ({
            let ls = one_conflict(before, start, ours, base, separator, theirs, end, after);
            &&& region_at(ls, ls.len()) == Some(Region::Outside)
            &&& side_lines(ls, ls.len(), side) == before + (match side {
                ConflictSide::Ours => ours,
                ConflictSide::Theirs => theirs,
            }) + after
        }),
{
    let none = Seq::<Seq<char>>::empty();
    lemma_markers_differ(start);
    lemma_markers_differ(end);
    lemma_markers_differ(separator);
    lemma_run(none, before, side);
    assert(none + before =~= before);
    assert(side_lines(before, before.len(), side) =~= before);
    let p2 = before.push(start);
    lemma_line(before, start, side);
    let p3 = p2 + ours;
    lemma_run(p2, ours, side);
    let first = if side == ConflictSide::Ours {
        before + ours
    } else {
        before
    };
    assert(side_lines(p3, p3.len(), side) =~= first);
    let p4 = match base {
        Some((marker, lines)) => p3.push(marker) + lines,
        None => p3,
    };
    if let Some((marker, lines)) = base {
        lemma_markers_differ(marker);
        lemma_line(p3, marker, side);
        lemma_run(p3.push(marker), lines, side);
    }
    assert(side_lines(p4, p4.len(), side) =~= first);
    lemma_line(p4, separator, side);
    let p5 = p4.push(separator);
    lemma_run(p5, theirs, side);
    let p6 = p5 + theirs;
    lemma_line(p6, end, side);
    let p7 = p6.push(end);
    let kept = match side {
        ConflictSide::Ours => ours,
        ConflictSide::Theirs => theirs,
    };
    assert(side_lines(p7, p7.len(), side) =~= before + kept);
    lemma_run(p7, after, side);
    assert(p7 + after =~= one_conflict(
        before,
        start,
        ours,
        base,
        separator,
        theirs,
        end,
        after,
    ));
}

/// Where the lines end outside every conflict, none of them is malformed.
proof fn lemma_ended_is_sound(ls: Seq<Seq<char>>, n: nat, m: nat)
    requires
        n <= m <= ls.len(),
        region_at(ls, m) is Some,
    ensures
        region_at(ls, n) is Some,
    decreases m - n,
{
    if n < m {
        lemma_ended_is_sound(ls, n, (m - 1) as nat);
    }
}

/// Where the lines end outside every conflict, none is found malformed.
proof fn lemma_sound_is_not_broken(ls: Seq<Seq<char>>, n: nat)
    requires
        region_at(ls, ls.len()) is Some,
    ensures
        broken_line(ls, n) is None,
    decreases ls.len() - n,
{
    if n < ls.len() {
        lemma_ended_is_sound(ls, n + 1, ls.len());
        lemma_sound_is_not_broken(ls, n + 1);
    }
}

/// Whether every text of a list is one line.
pub open spec fn all_lines(ls: Seq<Seq<char>>) -> bool {
    forall|i: int| 0 <= i < ls.len() ==> is_line(#[trigger] ls[i])
}

/// Taking a side of a conflict keeps every line of that side and every line
/// around the conflict, in their order, and drops all else: the markers, the
/// other side and the base part, where there is one. So a side may hold
/// anything that is no marker: a table, a quotation, a shorter run of marker
/// characters. Where the last line kept is not empty, the text that comes out
/// is those lines, each closed by a line feed.
pub proof fn law_side_keeps_its_lines(
    before: Seq<Seq<char>>,
    start: Seq<char>,
    ours: Seq<Seq<char>>,
    base: Option<(Seq<char>, Seq<Seq<char>>)>,
    separator: Seq<char>,
    theirs: Seq<Seq<char>>,
    end: Seq<char>,
    after: Seq<Seq<char>>,
    side: ConflictSide,
)
    requires
        unmarked(before),
        unmarked(ours),
        unmarked(theirs),
        unmarked(after),
        base matches Some(b) ==> starts(b.0, "|||||||"@) && unmarked(b.1),
        starts(start, "<<<<<<< "@),
        trim_end(separator) == "======="@,
        starts(end, ">>>>>>> "@),
        all_lines(one_conflict(before, start, ours, base, separator, theirs, end, after)),
    ensures
        ({
            let text = closed_lines(
                one_conflict(before, start, ours, base, separator, theirs, end, after),
            );
            let kept = before + (match side {
                ConflictSide::Ours => ours,
                ConflictSide::Theirs => theirs,
            }) + after;
            &&& side_of(text, side) matches Ok(out) && lines(out) == (if kept.len() == 0 {
                seq![Seq::empty()]
            } else if kept.len() > 1 && kept.last().len() == 0 {
                kept.drop_last()
            } else {
                kept
            })
            &&& kept.len() > 0 && kept.last().len() > 0 ==> side_of(text, side) == Ok::<
                Seq<char>,
                Seq<char>,
            >(closed_lines(kept))
        }),
{
    let ls = one_conflict(before, start, ours, base, separator, theirs, end, after);
    let text = closed_lines(ls);
    let kept = before + (match side {
        ConflictSide::Ours => ours,
        ConflictSide::Theirs => theirs,
    }) + after;
    law_lines_read_back(ls);
    lemma_one_conflict(before, start, ours, base, separator, theirs, end, after, side);
    lemma_sound_is_not_broken(ls, 0);
    assert(ls.last() == ls[ls.len() - 1]);
    assert(text.last() == '\n');
    reveal_strlit("\n");
    assert("\n"@ =~= seq!['\n']);
    let (at, within) = lemma_side_is_thinned(ls, ls.len(), side);
    assert forall|i: int| 0 <= i < kept.len() implies is_line(#[trigger] kept[i]) by {
        assert(kept[i] == side_lines(ls, ls.len(), side)[i]);
        assert(ls[at[i]] == kept[i]);
    }
    let joined = join(kept, "\n"@);
    assert(side_of(text, side) == Ok::<Seq<char>, Seq<char>>(ended_like(joined, text)));
    if kept.len() == 0 {
        assert(joined.push('\n') =~= seq!['\n']);
        let one = seq![Seq::<char>::empty()];
        assert(one.drop_last() =~= Seq::empty());
        assert(closed_lines(one.drop_last()) =~= Seq::empty());
        assert(closed_lines(one) =~= seq!['\n']);
        law_lines_read_back(one);
    } else {
        lemma_closed_join(kept);
        lemma_join_last(kept, seq!['\n']);
        if kept.last().len() > 0 {
            assert(is_line(kept[kept.len() - 1]));
            assert(kept.last().contains(kept.last().last()));
            law_lines_read_back(kept);
        } else if kept.len() > 1 {
            let shorter = kept.drop_last();
            lemma_closed_join(shorter);
            assert(joined =~= join(shorter, seq!['\n']).push('\n'));
            assert forall|i: int| 0 <= i < shorter.len() implies is_line(#[trigger] shorter[i]) by {
                assert(shorter[i] == kept[i]);
            }
            law_lines_read_back(shorter);
        } else {
            law_lines_read_back(kept);
        }
    }
}

/// A joined list ends as its last part does, where that is not empty.
proof fn lemma_join_last(ls: Seq<Seq<char>>, sep: Seq<char>)
    requires
        ls.len() > 0,
    ensures
        ls.last().len() > 0 ==> join(ls, sep).len() > 0 && join(ls, sep).last() == ls.last().last(),
        ls.len() == 1 ==> join(ls, sep) == ls.last(),
{
}

/// A conflict whose end marker never comes cannot be resolved to either side,
/// and neither can one whose end marker comes before its sides were
/// separated; the second names the line.
pub proof fn law_torn_conflict_is_refused(
    before: Seq<Seq<char>>,
    start: Seq<char>,
    ours: Seq<Seq<char>>,
    end: Seq<char>,
    after: Seq<Seq<char>>,
    side: ConflictSide,
)
    requires
        unmarked(before),
        unmarked(ours),
        starts(start, "<<<<<<< "@),
        starts(end, ">>>>>>> "@),
        all_lines(before + seq![start] + ours + seq![end] + after),
    ensures
        side_of(closed_lines(before + seq![start] + ours), side) is Err,
        side_of(closed_lines(before + seq![start] + ours + seq![end] + after), side) == Err::<
            Seq<char>,
            Seq<char>,
        >(
            "line "@ + decimal((before.len() + ours.len() + 2) as nat)
                + ": end marker before `=======` separator"@,
        ),
{
    let none = Seq::<Seq<char>>::empty();
    let open = before + seq![start] + ours;
    let whole = open + seq![end] + after;
    lemma_markers_differ(start);
    lemma_markers_differ(end);
    assert forall|i: int| 0 <= i < open.len() implies is_line(#[trigger] open[i]) by {
        assert(whole[i] == open[i]);
    }
    law_lines_read_back(open);
    law_lines_read_back(whole);
    lemma_run(none, before, side);
    assert(none + before =~= before);
    lemma_line(before, start, side);
    assert(before.push(start) =~= before + seq![start]);
    lemma_run(before.push(start), ours, side);
    let n = open.len();
    lemma_line(open, end, side);
    lemma_same_front(open, whole, n, side);
    lemma_same_front(open.push(end), whole, n + 1, side);
    assert(region_at(whole, n + 1) is None);
    lemma_first_broken(whole, 0, n);
}

/// The first line at which the reading breaks is found.
proof fn lemma_first_broken(ls: Seq<Seq<char>>, i: nat, n: nat)
    requires
        i <= n < ls.len(),
        region_at(ls, n) is Some,
        region_at(ls, n + 1) is None,
    ensures
        broken_line(ls, i) == Some(n),
    decreases n - i,
{
    if i < n {
        lemma_ended_is_sound(ls, i + 1, n);
        lemma_first_broken(ls, i + 1, n);
    }
}

/// Texts that can each be resolved resolve one behind the other: the lines
/// that a side keeps of both are those that it keeps of the first, then those
/// that it keeps of the second.
pub proof fn law_conflicts_resolve_one_by_one(
    a: Seq<Seq<char>>,
    b: Seq<Seq<char>>,
    side: ConflictSide,
)
    requires
        all_lines(a),
        all_lines(b),
        side_of(closed_lines(a), side) is Ok,
        side_of(closed_lines(b), side) is Ok,
    ensures
        side_of(closed_lines(a + b), side) is Ok,
        side_lines(a + b, (a + b).len(), side) == side_lines(a, a.len(), side) + side_lines(
            b,
            b.len(),
            side,
        ),
{
    law_lines_read_back(a);
    law_lines_read_back(b);
    let ls = a + b;
    assert forall|i: int| 0 <= i < ls.len() implies is_line(#[trigger] ls[i]) by {
        if i < a.len() {
            assert(ls[i] == a[i]);
        } else {
            assert(ls[i] == b[i - a.len()]);
        }
    }
    law_lines_read_back(ls);
    lemma_behind(a, b, b.len(), side);
    lemma_sound_is_not_broken(ls, 0);
}

/// Behind lines that end outside every conflict, lines are read as alone.
proof fn lemma_behind(a: Seq<Seq<char>>, b: Seq<Seq<char>>, n: nat, side: ConflictSide)
    requires
        n <= b.len(),
        region_at(a, a.len()) == Some(Region::Outside),
    ensures
        region_at(a + b, a.len() + n) == region_at(b, n),
        side_lines(a + b, a.len() + n, side) == side_lines(a, a.len(), side) + side_lines(
            b,
            n,
            side,
        ),
    decreases n,
{
    if n == 0 {
        lemma_same_front(a, a + b, a.len(), side);
        assert(side_lines(a, a.len(), side) + side_lines(b, 0, side) =~= side_lines(
            a,
            a.len(),
            side,
        ));
    } else {
        let m = (n - 1) as nat;
        lemma_behind(a, b, m, side);
        assert((a + b)[(a.len() + m) as int] == b[m as int]);
        assert(side_lines(a + b, a.len() + n, side) =~= side_lines(a, a.len(), side) + side_lines(
            b,
            n,
            side,
        ));
    }
}

/// The first lines of a text are read without regard to what follows.
proof fn lemma_same_front(a: Seq<Seq<char>>, b: Seq<Seq<char>>, n: nat, side: ConflictSide)
    requires
        n <= a.len() <= b.len(),
        forall|i: int| 0 <= i < n ==> a[i] == b[i],
    ensures
        region_at(a, n) == region_at(b, n),
        side_lines(a, n, side) == side_lines(b, n, side),
    decreases n,
{
    if n > 0 {
        lemma_same_front(a, b, (n - 1) as nat, side);
    }
}

// ---------------------------------------------------------------------
// Finding conflicts
// ---------------------------------------------------------------------

/// Whether a line starts at position `i`.
pub open spec fn line_starts(s: Seq<char>, i: int) -> bool {
    0 <= i < s.len() && (i == 0 || s[i - 1] == '\n')
}

/// Whether a text opens a conflict outside code. `mask` is the view of it in
/// which code is blanked out.
pub open spec fn opens_conflict(content: Seq<char>, mask: Seq<char>) -> bool {
    exists|i: int| #[trigger] line_starts(content, i) && occurs_at(mask, "<<<<<<< "@, i)
}

/// Whether a file carries conflict markers. A code sample that shows markers
/// is no conflict.
pub open spec fn is_conflicted(content: Seq<char>) -> bool {
    opens_conflict(content, code_masked(content))
}

/// Whether a text opens a conflict outside code, given the view of it in
/// which code is blanked out.
pub fn opens_conflict_masked(content: &str, mask: &Vec<char>) -> (r: bool)
    requires
        mask@.len() == content@.len(),
    ensures
        r == opens_conflict(content@, mask@),
{
    let x = chars_of(content);
    let marker = chars_of("<<<<<<< ");
    for i in 0..x.len()
        invariant
            x@ == content@,
            mask@.len() == x@.len(),
            marker@ == "<<<<<<< "@,
            forall|k: int|
                0 <= k < i ==> !(#[trigger] line_starts(content@, k) && occurs_at(
                    mask@,
                    "<<<<<<< "@,
                    k,
                )),
    {
        let starts_here = i == 0 || x[i - 1] == '\n';
        if starts_here && stands_at(mask, &marker, i) {
            assert(line_starts(content@, i as int));
            return true;
        }
    }
    false
}

/// Whether a file carries conflict markers.
pub fn has_merge_conflict_markers(content: &str) -> (r: bool)
    ensures
        r == is_conflicted(content@),
{
    let mask = mask_code_blocks_and_spans(content);
    opens_conflict_masked(content, &mask)
}

/// What a `ConflictedEntity` holds.
pub struct ConflictedView {
    pub id: Seq<char>,
    pub mem: Seq<char>,
    pub file_path: Seq<char>,
}

impl View for ConflictedEntity {
    type V = ConflictedView;

    open spec fn view(&self) -> ConflictedView {
        ConflictedView { id: self.id.0@, mem: self.mem@, file_path: self.file_path@ }
    }
}

impl Ranked for ConflictedEntity {
    open spec fn ranks_before(a: ConflictedView, b: ConflictedView) -> bool {
        lex_less(a.id, b.id)
    }

    fn goes_before(&self, other: &Self) -> (r: bool) {
        before(&self.id.0, &other.id.0)
    }
}

/// The files of a mem that carry conflict markers.
pub open spec fn conflicted(files: Seq<(Seq<char>, Seq<char>)>, mem: Seq<char>) -> Seq<
    ConflictedView,
>
    decreases files.len(),
{
    if files.len() == 0 {
        Seq::empty()
    } else {
        let rest = conflicted(files.drop_last(), mem);
        let f = files.last();
        if is_conflicted(f.1) {
            rest.push(
                ConflictedView { id: joined_id(mem, without_md(f.0)), mem, file_path: f.0 },
            )
        } else {
            rest
        }
    }
}

/// Put the files of a mem that carry conflict markers behind a list.
fn add_conflicted(out: &mut Vec<ConflictedEntity>, files: &Vec<SourceEntry>, mem: &str)
    ensures
        views(final(out)@) == views(old(out)@) + conflicted(views(files@), mem@),
{
    let ghost before = views(out@);
    let ghost fv = views(files@);
    assert(before + conflicted(fv.take(0), mem@) =~= before);
    for i in 0..files.len()
        invariant
            fv == views(files@),
            views(out@) == before + conflicted(fv.take(i as int), mem@),
    {
        let ghost done = views(out@);
        assert(fv.take(i + 1).drop_last() =~= fv.take(i as int));
        let f = &files[i];
        assert(fv[i as int] == f@);
        if has_merge_conflict_markers(&f.content) {
            let item = ConflictedEntity {
                id: file_path_to_id(&f.relative_path, mem),
                mem: own(mem),
                file_path: f.relative_path.clone(),
            };
            out.push(item);
            assert(views(out@) =~= done.push(item@));
            assert(before + conflicted(fv.take(i + 1), mem@) =~= done.push(item@));
        }
    }
    assert(fv.take(fv.len() as int) =~= fv);
}

/// The writable folder mount of a mem: its place and its root.
pub open spec fn folder_of<B, H>(engine: Engine<B, H>, mem: Seq<char>) -> Option<(int, Seq<char>)> {
    match engine.mount_at(mem) {
        Some(at) => if quarantine_index(engine.quarantined@, mem, 0) is None
            && engine.mounts@[at].mount.capability == MountCapability::Write {
            match engine.mounts@[at].mount.storage {
                MountStorage::Folder { path } => Some((at, path@)),
                _ => None,
            }
        } else {
            None
        },
        None => None,
    }
}

/// Whether an error says why a mem has no writable folder mount: it does not
/// serve, it is read-only, or it lies elsewhere.
pub open spec fn refuses_folder<B, H>(
    engine: Engine<B, H>,
    mem: Seq<char>,
    e: EngineError,
) -> bool {
    match engine.mount_at(mem) {
        None => says_unknown(engine.quarantined@, mem, e),
        Some(at) => if quarantine_index(engine.quarantined@, mem, 0) is Some {
            says_unknown(engine.quarantined@, mem, e)
        } else if engine.mounts@[at].mount.capability != MountCapability::Write {
            e matches EngineError::ReadOnlyMount(m) && m@ == mem
        } else {
            e matches EngineError::MergeConflictUnsupportedBackend { mem: m } && m@ == mem
        },
    }
}

/// The mems and roots of the writable folder mounts.
pub open spec fn folder_targets<B>(mounts: Seq<MountedBackend<B>>) -> Seq<(Seq<char>, Seq<char>)>
    decreases mounts.len(),
{
    if mounts.len() == 0 {
        Seq::empty()
    } else {
        let rest = folder_targets(mounts.drop_last());
        let m = mounts.last().mount;
        match m.storage {
            MountStorage::Folder { path } => if m.capability == MountCapability::Write {
                rest.push((m.mem@, path@))
            } else {
                rest
            },
            _ => rest,
        }
    }
}

/// What reading the directories of targets found, up to the first that could
/// not be read.
pub open spec fn found_in(
    targets: Seq<(Seq<char>, Seq<char>)>,
    replies: Seq<Result<Vec<SourceEntry>, String>>,
) -> Seq<ConflictedView>
    decreases replies.len(),
{
    if replies.len() == 0 {
        Seq::empty()
    } else {
        let rest = found_in(targets, replies.drop_last());
        match replies.last() {
            Ok(files) => rest + conflicted(views(files@), targets[replies.len() - 1].0),
            Err(_) => rest,
        }
    }
}

/// Whether `r` lists the conflicts of targets whose directories the host
/// read. The first that cannot be read ends the list with an error.
pub open spec fn lists_conflicts<H: Host>(
    h: &Surroundings<H>,
    targets: Seq<(Seq<char>, Seq<char>)>,
    r: Result<Vec<ConflictedEntity>, EngineError>,
) -> bool {
    exists|replies: Seq<Result<Vec<SourceEntry>, String>>|
        replies.len() <= targets.len() && (forall|i: int|
            0 <= i < replies.len() ==> directory_reply(
                h,
                targets[i].1,
                #[trigger] replies[i],
            )) && (match r {
            Ok(out) => replies.len() == targets.len() && (forall|i: int|
                0 <= i < replies.len() ==> (#[trigger] replies[i]) is Ok) && views(out@)
                == sorted(
                #[trigger] found_in(targets, replies),
                |a: ConflictedView, b: ConflictedView| lex_less(a.id, b.id),
            ),
            Err(e) => replies.len() > 0 && (replies.last() matches Err(m) && (e
                matches EngineError::InvalidInput(t) && t@ == "read mem directory: "@ + m@)),
        })
}

impl<B: MemBackend, H: Host> Engine<B, H> {
    /// The writable folder mount of a mem, or why it has none.
    fn folder_mount(&self, mem: &str) -> (r: Result<(usize, String), EngineError>)
        ensures
            match r {
                Ok((at, root)) => folder_of(*self, mem@) == Some((at as int, root@)) && at
                    < self.mounts@.len(),
                Err(e) => folder_of(*self, mem@) is None && refuses_folder(*self, mem@, e),
            },
    {
        let at = match self.find_mount(mem) {
            Ok(i) => i,
            Err(e) => {
                return Err(e);
            },
        };
        if self.quarantine_for(mem).is_some() {
            return Err(self.unknown_mem_error(mem));
        }
        if self.mounts[at].mount.capability != MountCapability::Write {
            return Err(EngineError::ReadOnlyMount(own(mem)));
        }
        match &self.mounts[at].mount.storage {
            MountStorage::Folder { path } => Ok((at, path.clone())),
            _ => Err(EngineError::MergeConflictUnsupportedBackend { mem: own(mem) }),
        }
    }

    /// List the entity files that carry conflict markers, in the order of
    /// their ids: those of one mem, which has to be a writable folder mem, or
    /// those of every such mem.
    pub fn list_merge_conflicts(&self, mem: Option<&str>) -> (r: Result<
        Vec<ConflictedEntity>,
        EngineError,
    >)
        ensures
            match mem {
                Some(name) => match folder_of(*self, name@) {
                    Some(target) => lists_conflicts(&self.host, seq![(name@, target.1)], r),
                    None => r matches Err(e) && refuses_folder(*self, name@, e),
                },
                None => lists_conflicts(&self.host, folder_targets(self.mounts@), r),
            },
            lists_for(*self, opt_str(mem), r),
    {
        let mut targets: Vec<(String, String)> = Vec::new();
        match mem {
            Some(name) => {
                let (_, root) = match self.folder_mount(name) {
                    Ok(pair) => pair,
                    Err(e) => {
                        return Err(e);
                    },
                };
                targets.push((own(name), root));
                assert(views(targets@) =~= seq![(name@, root@)]);
            },
            None => {
                assert(views(targets@) =~= folder_targets(self.mounts@.take(0)));
                for i in 0..self.mounts.len()
                    invariant
                        views(targets@) == folder_targets(self.mounts@.take(i as int)),
                {
                    let ghost done = views(targets@);
                    assert(self.mounts@.take(i + 1).drop_last() =~= self.mounts@.take(i as int));
                    let m = &self.mounts[i].mount;
                    if let MountStorage::Folder { path } = &m.storage {
                        if m.capability == MountCapability::Write {
                            let pair = (m.mem.clone(), path.clone());
                            targets.push(pair);
                            assert(views(targets@) =~= done.push(pair@));
                        }
                    }
                }
                assert(self.mounts@.take(self.mounts@.len() as int) =~= self.mounts@);
            },
        }
        self.conflicts_in(&targets)
    }

    /// List the conflicts of targets, given by their mems and roots.
    fn conflicts_in(&self, targets: &Vec<(String, String)>) -> (r: Result<
        Vec<ConflictedEntity>,
        EngineError,
    >)
        ensures
            lists_conflicts(&self.host, views(targets@), r),
    {
        let ghost tv = views(targets@);
        let ghost mut replies: Seq<Result<Vec<SourceEntry>, String>> = Seq::empty();
        let mut out: Vec<ConflictedEntity> = Vec::new();
        assert(views(out@) =~= found_in(tv, replies));
        for i in 0..targets.len()
            invariant
                tv == views(targets@),
                replies.len() == i,
                forall|k: int|
                    0 <= k < i ==> directory_reply(
                        &self.host,
                        tv[k].1,
                        #[trigger] replies[k],
                    ),
                forall|k: int| 0 <= k < i ==> (#[trigger] replies[k]) is Ok,
                views(out@) == found_in(tv, replies),
        {
            let ghost past = replies;
            assert(tv[i as int] == targets@[i as int]@);
            let reply = self.host.read_directory(&targets[i].1);
            proof {
                assert(directory_reply(&self.host, tv[i as int].1, reply));
                replies = past.push(reply);
                assert(replies.drop_last() =~= past);
                assert forall|k: int| 0 <= k < i + 1 implies directory_reply(
                    &self.host,
                    tv[k].1,
                    #[trigger] replies[k],
                ) by {
                    if k < i {
                        assert(replies[k] == past[k]);
                    }
                }
            }
            match reply {
                Ok(files) => {
                    add_conflicted(&mut out, &files, &targets[i].0);
                },
                Err(m) => {
                    let e = EngineError::InvalidInput(
                        "read mem directory: ".to_owned().concat(&m),
                    );
                    assert(found_in(tv, replies) == found_in(tv, replies));
                    return Err(e);
                },
            }
        }
        let r = stable_sort(out);
        proof {
            assert((|a: ConflictedView, b: ConflictedView|
                <ConflictedEntity as Ranked>::ranks_before(a, b)) =~= (|
                a: ConflictedView,
                b: ConflictedView,
            | lex_less(a.id, b.id)));
        }
        Ok(r)
    }
}

// ---------------------------------------------------------------------
// Resolving
// ---------------------------------------------------------------------

/// Where the file of an entity first stands among the files of its mem, from
/// `i` on.
pub open spec fn file_index(
    files: Seq<(Seq<char>, Seq<char>)>,
    mem: Seq<char>,
    id: Seq<char>,
    i: int,
) -> Option<int>
    decreases files.len() - i,
{
    if i < 0 || i >= files.len() {
        None
    } else if joined_id(mem, without_md(files[i].0)) == id {
        Some(i)
    } else {
        file_index(files, mem, id, i + 1)
    }
}

/// Whether `r` is the plan for resolving a conflict: the path to write and
/// the side to write there, or why nothing is to be written.
pub open spec fn plans(
    files: Seq<(Seq<char>, Seq<char>)>,
    mem: Seq<char>,
    id: Seq<char>,
    side: ConflictSide,
    r: Result<(Seq<char>, Seq<char>), EngineError>,
) -> bool {
    match file_index(files, mem, id, 0) {
        None => r matches Err(EngineError::NotFound { id: i }) && i@ == id,
        Some(k) => {
            let path = files[k].0;
            let content = files[k].1;
            if !is_conflicted(content) {
                r matches Err(EngineError::NotConflicted { id: i }) && i@ == id
            } else {
                match side_of(content, side) {
                    Err(m) => r matches Err(EngineError::InvalidInput(t)) && t@
                        == "malformed conflict markers in "@ + path + ": "@ + m,
                    Ok(resolved) => if is_conflicted(resolved) {
                        r matches Err(EngineError::InvalidInput(t)) && t@ == "the "@
                            + side.token() + " side of "@ + path
                            + " still carries conflict markers (nested conflict) — refusing to write it; resolve the other side or repair upstream first"@
                    } else {
                        r == Ok::<(Seq<char>, Seq<char>), EngineError>((path, resolved))
                    },
                }
            }
        },
    }
}

/// A plan never writes a text that carries conflict markers.
pub proof fn law_no_markers_are_written(
    files: Seq<(Seq<char>, Seq<char>)>,
    mem: Seq<char>,
    id: Seq<char>,
    side: ConflictSide,
    path: Seq<char>,
    content: Seq<char>,
)
    requires
        plans(files, mem, id, side, Ok((path, content))),
    ensures
        !is_conflicted(content),
        joined_id(mem, without_md(path)) == id,
{
    lemma_file_index(files, mem, id, 0);
}

/// What is found is a file of the id.
proof fn lemma_file_index(files: Seq<(Seq<char>, Seq<char>)>, mem: Seq<char>, id: Seq<char>, i: int)
    requires
        0 <= i,
    ensures
        file_index(files, mem, id, i) matches Some(k) ==> i <= k < files.len() && joined_id(
            mem,
            without_md(files[k].0),
        ) == id,
    decreases files.len() - i,
{
    if i < files.len() {
        lemma_file_index(files, mem, id, i + 1);
    }
}

/// The plan with its texts as they stand in the contract.
pub open spec fn plan_view(r: Result<(String, String), EngineError>) -> Result<
    (Seq<char>, Seq<char>),
    EngineError,
> {
    match r {
        Ok(p) => Ok((p.0@, p.1@)),
        Err(e) => Err(e),
    }
}

/// Plan the resolution of a conflict: find the entity's file, take the side,
/// and refuse a side that still carries markers.
pub fn plan_resolution(
    files: &Vec<SourceEntry>,
    mem: &str,
    id: &EntityId,
    side: ConflictSide,
) -> (r: Result<(String, String), EngineError>)
    ensures
        plans(views(files@), mem@, id.0@, side, plan_view(r)),
{
    let ghost fv = views(files@);
    let mut i: usize = 0;
    while i < files.len()
        invariant
            i <= files@.len(),
            fv == views(files@),
            file_index(fv, mem@, id.0@, 0) == file_index(fv, mem@, id.0@, i as int),
        decreases files@.len() - i,
    {
        let f = &files[i];
        assert(fv[i as int] == f@);
        if same(&file_path_to_id(&f.relative_path, mem).0, &id.0) {
            if !has_merge_conflict_markers(&f.content) {
                return Err(EngineError::NotConflicted { id: id.0.clone() });
            }
            let resolved = match extract_conflict_side(&f.content, side) {
                Ok(s) => s,
                Err(m) => {
                    return Err(
                        EngineError::InvalidInput(
                            "malformed conflict markers in ".to_owned().concat(
                                &f.relative_path,
                            ).concat(": ").concat(&m),
                        ),
                    );
                },
            };
            if has_merge_conflict_markers(&resolved) {
                return Err(
                    EngineError::InvalidInput(
                        "the ".to_owned().concat(side.as_wire()).concat(" side of ").concat(
                            &f.relative_path,
                        ).concat(
                            " still carries conflict markers (nested conflict) — refusing to write it; resolve the other side or repair upstream first",
                        ),
                    ),
                );
            }
            return Ok((f.relative_path.clone(), resolved));
        }
        i = i + 1;
    }
    Err(EngineError::NotFound { id: id.0.clone() })
}

/// The names of the writable mems.
pub open spec fn writable_mems<B>(mounts: Seq<MountedBackend<B>>) -> Seq<Seq<char>>
    decreases mounts.len(),
{
    if mounts.len() == 0 {
        Seq::empty()
    } else if mounts.last().mount.capability == MountCapability::Write {
        writable_mems(mounts.drop_last()).push(mounts.last().mount.mem@)
    } else {
        writable_mems(mounts.drop_last())
    }
}

/// Whether reading mems again one after another took an engine from `pre` to
/// `post`. The first that fails ends it with its error.
pub open spec fn reloads_all<B: MemBackend, H: Host>(
    pre: Engine<B, H>,
    names: Seq<Seq<char>>,
    post: Engine<B, H>,
    r: Result<(), EngineError>,
) -> bool {
    exists|trace: Seq<Engine<B, H>>, got: Seq<Result<MemReload, EngineError>>| #[trigger]
        reload_trace(names, trace, got) && trace[0] == pre && trace.last() == post && (match r {
            Ok(_) => got.len() == names.len() && (got.len() > 0 ==> got.last() is Ok),
            Err(e) => got.len() > 0 && got.last() == Err::<MemReload, EngineError>(e),
        })
}

/// Whether reading mems again went through these states with these outcomes;
/// only the last may have failed.
pub open spec fn reload_trace<B: MemBackend, H: Host>(
    names: Seq<Seq<char>>,
    trace: Seq<Engine<B, H>>,
    got: Seq<Result<MemReload, EngineError>>,
) -> bool {
    &&& got.len() <= names.len()
    &&& trace.len() == got.len() + 1
    &&& forall|i: int|
        0 <= i < got.len() ==> reloads(trace[i], names[i], trace[i + 1], #[trigger] got[i])
    &&& forall|i: int| 0 <= i < got.len() - 1 ==> (#[trigger] got[i]) is Ok
}

/// Where a write of the engine comes from: the caller, with the role and the
/// identity that the engine runs under.
pub open spec fn origin_of<B, H>(
    engine: Engine<B, H>,
    actor: Actor,
    client: Option<&ClientId>,
    note: Option<&str>,
) -> Origin {
    Origin {
        actor,
        client: match client {
            Some(c) => Some(*c),
            None => None,
        },
        note: opt_str(note),
        role: engine.current_role,
        identity: engine.current_identity,
    }
}

/// Whether resolving a conflict took an engine from `pre` to `post` with the
/// answer `r`.
pub open spec fn resolves<B: MemBackend, H: Host>(
    pre: Engine<B, H>,
    id: EntityId,
    side: ConflictSide,
    from: Origin,
    post: Engine<B, H>,
    r: Result<ResolveConflictOutcome, EngineError>,
) -> bool {
    let mem = id_mem(id.0@);
    match folder_of(pre, mem) {
        None => post == pre && (r matches Err(e) && refuses_folder(pre, mem, e)),
        Some(target) => reads_and_plans(pre, target.0, target.1, mem, id, side, from, post, r),
    }
}

/// Whether reading a mem's directory and planning a resolution took an engine
/// from `pre` to `post`.
pub open spec fn reads_and_plans<B: MemBackend, H: Host>(
    pre: Engine<B, H>,
    at: int,
    root: Seq<char>,
    mem: Seq<char>,
    id: EntityId,
    side: ConflictSide,
    from: Origin,
    post: Engine<B, H>,
    r: Result<ResolveConflictOutcome, EngineError>,
) -> bool {
    exists|reply: Result<Vec<SourceEntry>, String>| #[trigger]
        directory_reply(&pre.host, root, reply) && match reply {
            Err(m) => post == pre && (r matches Err(EngineError::InvalidInput(t)) && t@
                == "read mem directory: "@ + m@),
            Ok(files) => follows_plan(pre, at, views(files@), mem, id, side, from, post, r),
        }
}

/// Whether following the plan for a resolution took an engine from `pre` to
/// `post`.
pub open spec fn follows_plan<B: MemBackend, H: Host>(
    pre: Engine<B, H>,
    at: int,
    files: Seq<(Seq<char>, Seq<char>)>,
    mem: Seq<char>,
    id: EntityId,
    side: ConflictSide,
    from: Origin,
    post: Engine<B, H>,
    r: Result<ResolveConflictOutcome, EngineError>,
) -> bool {
    exists|plan: Result<(Seq<char>, Seq<char>), EngineError>| #[trigger]
        plans(files, mem, id.0@, side, plan) && match plan {
            Err(e) => post == pre && r == Err::<ResolveConflictOutcome, EngineError>(e),
            Ok((path, content)) => checks_and_writes(
                pre,
                at,
                mem,
                id,
                side,
                from,
                path,
                content,
                post,
                r,
            ),
        }
}

/// The keys of the sections of an entity.
pub open spec fn section_keys(sections: Seq<(String, String)>) -> Seq<Seq<char>> {
    sections.map_values(|s: (String, String)| s.0@)
}

/// The keys of the sections of an entity.
fn section_key_list(sections: &Vec<(String, String)>) -> (r: Vec<String>)
    ensures
        texts(r@) == section_keys(sections@),
{
    let mut out: Vec<String> = Vec::new();
    for i in 0..sections.len()
        invariant
            texts(out@) == section_keys(sections@).take(i as int),
    {
        let ghost done = texts(out@);
        out.push(sections[i].0.clone());
        assert(texts(out@) =~= done.push(sections@[i as int].0@));
        assert(section_keys(sections@).take(i + 1) =~= done.push(sections@[i as int].0@));
    }
    assert(section_keys(sections@).take(sections@.len() as int) =~= section_keys(sections@));
    out
}

/// Whether `valid` is what a side is answered before it is written: it has to
/// parse as an entity of its type, hold no section that the type does not
/// know, and hold in each section what a section may hold. That every
/// required section is there is not asked.
pub open spec fn judges_side<H: Host>(
    h: &Surroundings<H>,
    schema: Arc<Schema>,
    content: Seq<char>,
    path: Seq<char>,
    mem: Seq<char>,
    valid: Result<(), EngineError>,
) -> bool {
    exists|type_def: TypeDefinition, parsed: Result<Entity, ParseError>|
        #![trigger entry_type_reply(h, schema, content, type_def), parse_one_reply(h, content, path, type_def, mem, parsed)]
        entry_type_reply(h, schema, content, type_def) && parse_one_reply(
            h,
            content,
            path,
            type_def,
            mem,
            parsed,
        ) && match parsed {
            Err(e) => valid == Err::<(), EngineError>(EngineError::Parse(e)),
            Ok(entity) => judges_sections(h, type_def, entity.sections@, valid),
        }
}

/// Whether `valid` is what the sections of a side are answered.
pub open spec fn judges_sections<H: Host>(
    h: &Surroundings<H>,
    type_def: TypeDefinition,
    sections: Seq<(String, String)>,
    valid: Result<(), EngineError>,
) -> bool {
    exists|known: Result<(), ValidationError>| #[trigger]
        keys_reply(h, section_keys(sections), type_def, known) && match known {
            Err(v) => valid == Err::<(), EngineError>(EngineError::Validation(v)),
            Ok(_) => judges_bodies(h, type_def, sections, valid),
        }
}

/// Whether `valid` is what the section bodies of a side are answered.
pub open spec fn judges_bodies<H: Host>(
    h: &Surroundings<H>,
    type_def: TypeDefinition,
    sections: Seq<(String, String)>,
    valid: Result<(), EngineError>,
) -> bool {
    exists|catch_all: Option<Vec<String>>, held: Result<(), ValidationError>|
        #![trigger catch_all_reply(h, type_def, catch_all), content_reply(h, sections, catch_all, held)]
        catch_all_reply(h, type_def, catch_all) && content_reply(h, sections, catch_all, held)
            && match held {
            Err(v) => valid == Err::<(), EngineError>(EngineError::Validation(v)),
            Ok(_) => valid is Ok,
        }
}

/// Hold a side to what it has to pass before it is written.
pub fn judge_side<H: Host>(
    host: &Surroundings<H>,
    schema: &Arc<Schema>,
    content: &str,
    path: &str,
    mem: &str,
) -> (r: Result<(), EngineError>)
    ensures
        judges_side(host, *schema, content@, path@, mem@, r),
{
    let type_def = host.entry_type(schema, content);
    let parsed = host.parse_entity(content, path, &type_def, mem);
    let ghost got = parsed;
    assert(parse_one_reply(host, content@, path@, type_def, mem@, got));
    let entity = match parsed {
        Ok(e) => e,
        Err(e) => {
            return Err(EngineError::Parse(e));
        },
    };
    let known = host.check_section_keys(&section_key_list(&entity.sections), &type_def);
    let ghost told = known;
    assert(keys_reply(host, section_keys(entity.sections@), type_def, told));
    if let Err(v) = known {
        let r = Err(EngineError::Validation(v));
        assert(judges_sections(host, type_def, entity.sections@, r));
        return r;
    }
    let catch_all = host.catch_all_headings(&type_def);
    let held = host.check_section_content(&entity.sections, &catch_all);
    let ghost said = held;
    assert(catch_all_reply(host, type_def, catch_all));
    assert(content_reply(host, entity.sections@, catch_all, said));
    let r = match held {
        Ok(_) => Ok(()),
        Err(v) => Err(EngineError::Validation(v)),
    };
    assert(judges_bodies(host, type_def, entity.sections@, r));
    assert(judges_sections(host, type_def, entity.sections@, r));
    r
}

/// Whether holding a resolution to the schema and writing it took an engine
/// from `pre` to `post`. What the schema refuses is not written.
pub open spec fn checks_and_writes<B: MemBackend, H: Host>(
    pre: Engine<B, H>,
    at: int,
    mem: Seq<char>,
    id: EntityId,
    side: ConflictSide,
    from: Origin,
    path: Seq<char>,
    content: Seq<char>,
    post: Engine<B, H>,
    r: Result<ResolveConflictOutcome, EngineError>,
) -> bool {
    match schema_of(pre.schemas@, mem) {
        None => post == pre && (r matches Err(e) && says_unknown(pre.quarantined@, mem, e)),
        Some(schema) => passes_and_writes(
            pre,
            at,
            schema,
            mem,
            id,
            side,
            from,
            path,
            content,
            post,
            r,
        ),
    }
}

/// Whether holding a resolution to this schema and writing it took an engine
/// from `pre` to `post`.
pub open spec fn passes_and_writes<B: MemBackend, H: Host>(
    pre: Engine<B, H>,
    at: int,
    schema: Arc<Schema>,
    mem: Seq<char>,
    id: EntityId,
    side: ConflictSide,
    from: Origin,
    path: Seq<char>,
    content: Seq<char>,
    post: Engine<B, H>,
    r: Result<ResolveConflictOutcome, EngineError>,
) -> bool {
    exists|valid: Result<(), EngineError>| #[trigger]
        judges_side(&pre.host, schema, content, path, mem, valid) && match valid {
            Err(e) => post == pre && r == Err::<ResolveConflictOutcome, EngineError>(e),
            Ok(_) => writes(pre, at, mem, id, side, from, path, content, post, r),
        }
}

/// Whether `post` is `pre` after the storage of mount `at` was asked for
/// `call` and nothing else changed.
pub open spec fn stored<B, H>(
    pre: Engine<B, H>,
    post: Engine<B, H>,
    at: int,
    call: StorageCall,
) -> bool {
    &&& 0 <= at < pre.mounts@.len()
    &&& post.mounts@.len() == pre.mounts@.len()
    &&& post.mounts@[at].backend.inner() == pre.mounts@[at].backend.inner()
    &&& post.mounts@[at].backend.calls() == pre.mounts@[at].backend.calls() + seq![call]
    &&& post.mounts@ == pre.mounts@.update(
        at,
        MountedBackend { backend: post.mounts@[at].backend, ..pre.mounts@[at] },
    )
    &&& post == (Engine { mounts: post.mounts, ..pre })
}

/// The call that writes a resolution.
pub open spec fn write_call(path: Seq<char>, content: Seq<char>) -> StorageCall {
    StorageCall::Write { path, content }
}

/// The message under which a resolution is committed.
pub open spec fn commit_message(id: Seq<char>, side: ConflictSide) -> Seq<char> {
    "memstead: resolve-conflict "@ + id + " (side: "@ + side.token() + ")"@
}

/// The call that commits a resolution.
pub open spec fn commit_call(id: Seq<char>, side: ConflictSide, from: Origin) -> StorageCall {
    StorageCall::Commit { message: commit_message(id, side), tool: "resolve_conflict"@, from }
}

/// The call that logs a resolution.
pub open spec fn log_call(ts: u64, id: Seq<char>, from: Origin) -> StorageCall {
    StorageCall::Log { ts, kind: "update"@, entity: Some(id), from }
}

/// Whether writing, committing and logging a resolution took an engine from
/// `pre` to `post`. Where the storage fails, nothing follows.
pub open spec fn writes<B: MemBackend, H: Host>(
    pre: Engine<B, H>,
    at: int,
    mem: Seq<char>,
    id: EntityId,
    side: ConflictSide,
    from: Origin,
    path: Seq<char>,
    content: Seq<char>,
    post: Engine<B, H>,
    r: Result<ResolveConflictOutcome, EngineError>,
) -> bool {
    exists|written: Result<(), BackendError>, mid: Engine<B, H>|
        #![trigger write_reply(&pre.mounts@[at].backend, path, content, written), stored(pre, mid, at, write_call(path, content))]
        write_reply(&pre.mounts@[at].backend, path, content, written) && stored(
            pre,
            mid,
            at,
            write_call(path, content),
        ) && match written {
            Err(e) => post == mid && (r matches Err(EngineError::Backend(x)) && x == e),
            Ok(_) => commits(mid, at, mem, id, side, from, post, r),
        }
}

/// Whether committing and logging a resolution took an engine from `pre` to
/// `post`.
pub open spec fn commits<B: MemBackend, H: Host>(
    pre: Engine<B, H>,
    at: int,
    mem: Seq<char>,
    id: EntityId,
    side: ConflictSide,
    from: Origin,
    post: Engine<B, H>,
    r: Result<ResolveConflictOutcome, EngineError>,
) -> bool {
    exists|committed: Result<String, BackendError>, mid: Engine<B, H>|
        #![trigger commit_reply(&pre.mounts@[at].backend, commit_message(id.0@, side), "resolve_conflict"@, from, committed), stored(pre, mid, at, commit_call(id.0@, side, from))]
        commit_reply(
            &pre.mounts@[at].backend,
            commit_message(id.0@, side),
            "resolve_conflict"@,
            from,
            committed,
        ) && stored(pre, mid, at, commit_call(id.0@, side, from)) && match committed {
            Err(e) => post == mid && (r matches Err(EngineError::Backend(x)) && x == e),
            Ok(write_id) => logs(mid, at, mem, id, side, from, write_id, post, r),
        }
}

/// Whether logging a committed resolution took an engine from `pre` to
/// `post`: its write is known, and every writable mem is read again.
pub open spec fn logs<B: MemBackend, H: Host>(
    pre: Engine<B, H>,
    at: int,
    mem: Seq<char>,
    id: EntityId,
    side: ConflictSide,
    from: Origin,
    write_id: String,
    post: Engine<B, H>,
    r: Result<ResolveConflictOutcome, EngineError>,
) -> bool {
    exists|ts: u64, logged: Result<(), BackendError>, mid: Engine<B, H>|
        #![trigger provenance_reply(&pre.mounts@[at].backend, ts, "update"@, id.0@, from, logged), stored(pre, mid, at, log_call(ts, id.0@, from))]
        now_reply(&pre.host, ts) && provenance_reply(
            &pre.mounts@[at].backend,
            ts,
            "update"@,
            id.0@,
            from,
            logged,
        ) && stored(pre, mid, at, log_call(ts, id.0@, from)) && match logged {
            Err(e) => post == mid && (r matches Err(EngineError::Backend(x)) && x == e),
            Ok(_) => lands(mid, at, mem, id, side, write_id, post, r),
        }
}

/// Whether the last steps of a resolution took an engine from `pre` to `post`
/// with the answer `r`.
pub open spec fn lands<B: MemBackend, H: Host>(
    pre: Engine<B, H>,
    at: int,
    mem: Seq<char>,
    id: EntityId,
    side: ConflictSide,
    write_id: String,
    post: Engine<B, H>,
    r: Result<ResolveConflictOutcome, EngineError>,
) -> bool {
    exists|
        known: Engine<B, H>,
        mid: Engine<B, H>,
        warned: Vec<WarningHint>,
        read: Result<(), EngineError>,
    |
        #![trigger stamp_reply(&known.host, mem, warned), reloads_all(mid, writable_mems(mid.mounts@), post, read)]
        records_write(pre, known, at, write_id@) && stamp_reply(&known.host, mem, warned) && asked(
            known,
            mid,
            seq![HostCall::Stamp { mem }],
        ) && reloads_all(mid, writable_mems(mid.mounts@), post, read) && match read {
            Err(e) => r == Err::<ResolveConflictOutcome, EngineError>(e),
            Ok(_) => r matches Ok(o) && o.id == id && o.side@ == side.token() && o.write_id
                == write_id && o.warnings@ == warned@,
        }
}

impl<B: MemBackend, H: Host> Engine<B, H> {
    /// Read every writable mem again. The first that fails ends it.
    pub fn reload_each_writable_mem(&mut self) -> (r: Result<(), EngineError>)
        ensures
            reloads_all(*old(self), writable_mems(old(self).mounts@), *final(self), r),
    {
        let ghost pre = *self;
        let mut names: Vec<String> = Vec::new();
        assert(texts(names@) =~= writable_mems(self.mounts@.take(0)));
        for i in 0..self.mounts.len()
            invariant
                *self == pre,
                texts(names@) == writable_mems(self.mounts@.take(i as int)),
        {
            let ghost done = texts(names@);
            assert(self.mounts@.take(i + 1).drop_last() =~= self.mounts@.take(i as int));
            if self.mounts[i].mount.capability == MountCapability::Write {
                names.push(self.mounts[i].mount.mem.clone());
                assert(texts(names@) =~= done.push(self.mounts@[i as int].mount.mem@));
            }
        }
        assert(self.mounts@.take(self.mounts@.len() as int) =~= self.mounts@);
        let ghost nv = texts(names@);
        let ghost mut trace: Seq<Engine<B, H>> = seq![*self];
        let ghost mut got: Seq<Result<MemReload, EngineError>> = Seq::empty();
        let n: usize = names.len();
        for i in 0..n
            invariant
                n == names@.len(),
                nv == texts(names@),
                nv == writable_mems(pre.mounts@),
                *old(self) == pre,
                got.len() == i,
                trace.len() == i + 1,
                trace[0] == pre,
                trace[i as int] == *self,
                forall|k: int|
                    0 <= k < i ==> reloads(trace[k], nv[k], trace[k + 1], #[trigger] got[k]),
                forall|k: int| 0 <= k < i ==> (#[trigger] got[k]) is Ok,
        {
            let ghost past = trace;
            let ghost before = got;
            assert(nv[i as int] == names@[i as int]@);
            let reply = self.reload_one_mem(&names[i]);
            proof {
                trace = past.push(*self);
                got = before.push(reply);
                assert forall|k: int| 0 <= k < i + 1 implies reloads(
                    trace[k],
                    nv[k],
                    trace[k + 1],
                    #[trigger] got[k],
                ) by {
                    if k < i {
                        assert(got[k] == before[k]);
                        assert(trace[k] == past[k] && trace[k + 1] == past[k + 1]);
                    }
                }
                assert forall|k: int| 0 <= k < i implies (#[trigger] got[k]) is Ok by {
                    assert(got[k] == before[k]);
                }
            }
            if let Err(e) = reply {
                assert(reload_trace(nv, trace, got));
                return Err(e);
            }
        }
        assert(reload_trace(nv, trace, got));
        Ok(())
    }

    /// Resolve one conflicted entity to a side. The side has to be free of
    /// markers and to pass what a write is held to before anything is
    /// written; then it is written, committed and logged under its origin, and
    /// the mems are read again.
    pub fn resolve_merge_conflict(
        &mut self,
        id: &EntityId,
        side: ConflictSide,
        actor: Actor,
        client: Option<&ClientId>,
        note: Option<&str>,
    ) -> (r: Result<ResolveConflictOutcome, EngineError>)
        ensures
            resolves(
                *old(self),
                *id,
                side,
                origin_of(*old(self), actor, client, note),
                *final(self),
                r,
            ),
    {
        let ghost pre = *self;
        let ghost from = origin_of(pre, actor, client, note);
        let mem = id.mem();
        let (at, root) = match self.folder_mount(&mem) {
            Ok(pair) => pair,
            Err(e) => {
                return Err(e);
            },
        };
        let r = self.resolve_in(at, &root, &mem, id, side, actor, client, note);
        assert(reads_and_plans(pre, at as int, root@, mem@, *id, side, from, *self, r));
        r
    }

    /// Resolve one conflicted entity of the folder mem at `root`.
    fn resolve_in(
        &mut self,
        at: usize,
        root: &str,
        mem: &str,
        id: &EntityId,
        side: ConflictSide,
        actor: Actor,
        client: Option<&ClientId>,
        note: Option<&str>,
    ) -> (r: Result<ResolveConflictOutcome, EngineError>)
        requires
            at < old(self).mounts@.len(),
        ensures
            reads_and_plans(
                *old(self),
                at as int,
                root@,
                mem@,
                *id,
                side,
                origin_of(*old(self), actor, client, note),
                *final(self),
                r,
            ),
    {
        let ghost pre = *self;
        let ghost from = origin_of(pre, actor, client, note);
        let reply = self.host.read_directory(root);
        let ghost answered = reply;
        assert(directory_reply(&pre.host, root@, answered));
        let files = match reply {
            Ok(f) => f,
            Err(m) => {
                return Err(
                    EngineError::InvalidInput("read mem directory: ".to_owned().concat(&m)),
                );
            },
        };
        let ghost fv = views(files@);
        let plan = plan_resolution(&files, mem, id, side);
        let ghost planned = plan_view(plan);
        assert(plans(fv, mem@, id.0@, side, planned));
        let (path, content) = match plan {
            Ok(p) => p,
            Err(e) => {
                assert(follows_plan(pre, at as int, fv, mem@, *id, side, from, *self, Err(e)));
                return Err(e);
            },
        };
        let r = self.write_resolution(at, mem, id, side, actor, client, note, &path, &content);
        assert(follows_plan(pre, at as int, fv, mem@, *id, side, from, *self, r));
        r
    }

    /// Hold a resolution to the schema, write it, commit it and log it.
    fn write_resolution(
        &mut self,
        at: usize,
        mem: &str,
        id: &EntityId,
        side: ConflictSide,
        actor: Actor,
        client: Option<&ClientId>,
        note: Option<&str>,
        path: &str,
        content: &str,
    ) -> (r: Result<ResolveConflictOutcome, EngineError>)
        requires
            at < old(self).mounts@.len(),
        ensures
            checks_and_writes(
                *old(self),
                at as int,
                mem@,
                *id,
                side,
                origin_of(*old(self), actor, client, note),
                path@,
                content@,
                *final(self),
                r,
            ),
    {
        let ghost pre = *self;
        let ghost from = origin_of(pre, actor, client, note);
        let schema = match self.schema_for(mem) {
            Some(s) => s.clone(),
            None => {
                return Err(self.unknown_mem_error(mem));
            },
        };
        let valid = judge_side(&self.host, &schema, content, path, mem);
        let ghost judged = valid;
        assert(judges_side(&pre.host, schema, content@, path@, mem@, judged));
        if let Err(e) = valid {
            assert(passes_and_writes(
                pre,
                at as int,
                schema,
                mem@,
                *id,
                side,
                from,
                path@,
                content@,
                *self,
                Err(e),
            ));
            return Err(e);
        }
        let r = self.land_resolution(at, mem, id, side, actor, client, note, path, content);
        assert(passes_and_writes(
            pre,
            at as int,
            schema,
            mem@,
            *id,
            side,
            from,
            path@,
            content@,
            *self,
            r,
        ));
        r
    }

    /// Write a resolution that passed, commit it and log it.
    fn land_resolution(
        &mut self,
        at: usize,
        mem: &str,
        id: &EntityId,
        side: ConflictSide,
        actor: Actor,
        client: Option<&ClientId>,
        note: Option<&str>,
        path: &str,
        content: &str,
    ) -> (r: Result<ResolveConflictOutcome, EngineError>)
        requires
            at < old(self).mounts@.len(),
        ensures
            writes(
                *old(self),
                at as int,
                mem@,
                *id,
                side,
                origin_of(*old(self), actor, client, note),
                path@,
                content@,
                *final(self),
                r,
            ),
    {
        let ghost pre = *self;
        let ghost from = origin_of(pre, actor, client, note);
        let written = self.mounts[at].backend.write_entity(path, content);
        let ghost wrote = written;
        let ghost after_write = *self;
        assert(write_reply(&pre.mounts@[at as int].backend, path@, content@, wrote));
        assert(stored(pre, after_write, at as int, write_call(path@, content@)));
        if let Err(e) = written {
            return Err(EngineError::Backend(e));
        }
        let own_client = match client {
            Some(c) => Some(c.copy()),
            None => None,
        };
        let own_note = match note {
            Some(n) => Some(own(n)),
            None => None,
        };
        let context = CommitContext {
            actor,
            client: own_client,
            tool: own("resolve_conflict"),
            note: own_note,
            role: own_opt(&self.current_role),
            identity: own_opt(&self.current_identity),
        };
        assert(context.origin() == from);
        let message = "memstead: resolve-conflict ".to_owned().concat(&id.0).concat(
            " (side: ",
        ).concat(side.as_wire()).concat(")");
        let committed = self.mounts[at].backend.commit(&message, &context);
        let ghost done = committed;
        let ghost after_commit = *self;
        assert(commit_reply(
            &after_write.mounts@[at as int].backend,
            commit_message(id.0@, side),
            "resolve_conflict"@,
            from,
            done,
        ));
        assert(stored(after_write, after_commit, at as int, commit_call(id.0@, side, from)));
        let write_id = match committed {
            Ok(w) => w,
            Err(e) => {
                let r = Err(EngineError::Backend(e));
                assert(commits(after_write, at as int, mem@, *id, side, from, *self, r));
                return r;
            },
        };
        let ts = self.host.now();
        let record = Provenance {
            ts,
            kind: own("update"),
            entity: Some(id.0.clone()),
            actor,
            client: context.client,
            note: context.note,
            role: context.role,
            identity: context.identity,
        };
        assert(record.origin() == from);
        let logged = self.mounts[at].backend.append_provenance(&record);
        let ghost entered = logged;
        let ghost after_log = *self;
        assert(now_reply(&after_commit.host, ts));
        assert(provenance_reply(
            &after_commit.mounts@[at as int].backend,
            ts,
            "update"@,
            id.0@,
            from,
            entered,
        ));
        assert(stored(after_commit, after_log, at as int, log_call(ts, id.0@, from)));
        if let Err(e) = logged {
            let r = Err(EngineError::Backend(e));
            assert(logs(after_commit, at as int, mem@, *id, side, from, write_id, *self, r));
            assert(commits(after_write, at as int, mem@, *id, side, from, *self, r));
            return r;
        }
        self.record_self_write(at, &write_id);
        let ghost known = *self;
        assert(records_write(after_log, known, at as int, write_id@));
        let warnings = self.host.stamp_mutation_versions(mem);
        let ghost mid = *self;
        assert(stamp_reply(&known.host, mem@, warnings));
        assert(asked(known, mid, seq![HostCall::Stamp { mem: mem@ }]));
        let read = self.reload_each_writable_mem();
        let ghost outcome = read;
        assert(reloads_all(mid, writable_mems(mid.mounts@), *self, outcome));
        let ghost wid = write_id;
        let r = match read {
            Err(e) => Err(e),
            Ok(_) => Ok(
                ResolveConflictOutcome {
                    id: id.copy(),
                    side: side.as_wire(),
                    write_id,
                    warnings,
                },
            ),
        };
        proof {
            assert(lands(after_log, at as int, mem@, *id, side, wid, *self, r));
            assert(logs(after_commit, at as int, mem@, *id, side, from, wid, *self, r));
            assert(commits(after_write, at as int, mem@, *id, side, from, *self, r));
        }
        r
    }
}

// ---------------------------------------------------------------------
// What holds of a resolution
// ---------------------------------------------------------------------

/// What a resolution asks of the storage, in this order.
pub open spec fn resolution_calls(
    path: Seq<char>,
    content: Seq<char>,
    id: Seq<char>,
    side: ConflictSide,
    from: Origin,
    ts: u64,
) -> Seq<StorageCall> {
    seq![write_call(path, content), commit_call(id, side, from), log_call(ts, id, from)]
}

/// Whether between `pre` and `post` the storage of mount `at` was asked for
/// `calls`, and no other storage for anything.
pub open spec fn storage_asked<B, H>(
    pre: Engine<B, H>,
    post: Engine<B, H>,
    at: int,
    calls: Seq<StorageCall>,
) -> bool {
    &&& post.mounts@.len() == pre.mounts@.len()
    &&& post.mounts@[at].backend.inner() == pre.mounts@[at].backend.inner()
    &&& post.mounts@[at].backend.calls() == pre.mounts@[at].backend.calls() + calls
    &&& forall|k: int|
        0 <= k < pre.mounts@.len() && k != at ==> (#[trigger] post.mounts@[k]).backend
            == pre.mounts@[k].backend
}

/// Whether `content` is the side of a conflicted text: what its extraction
/// gives, without markers left in it.
pub open spec fn is_clean_side(content: Seq<char>, of: Seq<char>, side: ConflictSide) -> bool {
    is_conflicted(of) && side_of(of, side) == Ok::<Seq<char>, Seq<char>>(content) && !is_conflicted(
        content,
    )
}

/// Whether `content` is a side that may be written at `path`: the directory of
/// the mem shows the entity's conflicted file there, `content` is its side
/// without markers, and it passed what a write is held to.
pub open spec fn may_be_written<B, H: Host>(
    pre: Engine<B, H>,
    root: Seq<char>,
    mem: Seq<char>,
    id: Seq<char>,
    side: ConflictSide,
    path: Seq<char>,
    content: Seq<char>,
) -> bool {
    &&& exists|files: Vec<SourceEntry>| #[trigger]
        directory_reply(&pre.host, root, Ok::<Vec<SourceEntry>, String>(files)) && (file_index(
            views(files@),
            mem,
            id,
            0,
        ) matches Some(k) && views(files@)[k].0 == path && is_clean_side(
            content,
            views(files@)[k].1,
            side,
        ))
    &&& joined_id(mem, without_md(path)) == id
    &&& schema_of(pre.schemas@, mem) matches Some(schema) && judges_side(
        &pre.host,
        schema,
        content,
        path,
        mem,
        Ok(()),
    )
}

/// Whether the first `n` steps of a resolution were taken between `pre` and
/// `post`, on the mount and in the directory of `target`.
pub open spec fn resolved_by<B, H: Host>(
    pre: Engine<B, H>,
    post: Engine<B, H>,
    target: (int, Seq<char>),
    mem: Seq<char>,
    id: Seq<char>,
    side: ConflictSide,
    from: Origin,
    path: Seq<char>,
    content: Seq<char>,
    ts: u64,
    n: int,
) -> bool {
    &&& 0 <= n <= 3
    &&& n == 0 ==> post == pre
    &&& n > 0 ==> may_be_written(pre, target.1, mem, id, side, path, content)
    &&& storage_asked(
        pre,
        post,
        target.0,
        resolution_calls(path, content, id, side, from, ts).take(n),
    )
}

/// Reading a mem again asks nothing of any storage and of the host.
proof fn lemma_reload_keeps_storage<B: MemBackend, H: Host>(
    pre: Engine<B, H>,
    mem: Seq<char>,
    post: Engine<B, H>,
    r: Result<MemReload, EngineError>,
)
    requires
        reloads(pre, mem, post, r),
    ensures
        keeps_storage(pre, post),
{
    lemma_mount_index(pre.mounts@, mem, 0);
}

/// Whether between `pre` and `post` nothing was asked of a storage or of the
/// host, and the mounts are the same.
pub open spec fn keeps_storage<B, H>(pre: Engine<B, H>, post: Engine<B, H>) -> bool {
    &&& post.host == pre.host
    &&& post.mounts@.len() == pre.mounts@.len()
    &&& forall|k: int|
        0 <= k < pre.mounts@.len() ==> (#[trigger] post.mounts@[k]).backend
            == pre.mounts@[k].backend && post.mounts@[k].mount == pre.mounts@[k].mount
}

/// Reading mems again asks nothing of any storage and of the host.
proof fn lemma_trace_keeps_storage<B: MemBackend, H: Host>(
    names: Seq<Seq<char>>,
    trace: Seq<Engine<B, H>>,
    got: Seq<Result<MemReload, EngineError>>,
    n: int,
)
    requires
        reload_trace(names, trace, got),
        0 <= n < trace.len(),
    ensures
        keeps_storage(trace[0], trace[n]),
    decreases n,
{
    if n > 0 {
        let l = n - 1;
        lemma_trace_keeps_storage(names, trace, got, l);
        assert(reloads(trace[l], names[l], trace[l + 1], got[l]));
        lemma_reload_keeps_storage(trace[l], names[l], trace[n], got[l]);
        assert forall|k: int| 0 <= k < trace[0].mounts@.len() implies (
        #[trigger] trace[n].mounts@[k]).backend == trace[0].mounts@[k].backend
            && trace[n].mounts@[k].mount == trace[0].mounts@[k].mount by {
            assert(trace[l].mounts@[k].backend == trace[0].mounts@[k].backend);
        }
    }
}

/// The last steps of a resolution ask nothing more of any storage, and the
/// host for one stamp.
proof fn lemma_landing_asks_once<B: MemBackend, H: Host>(
    pre: Engine<B, H>,
    at: int,
    mem: Seq<char>,
    id: EntityId,
    side: ConflictSide,
    write_id: String,
    post: Engine<B, H>,
    r: Result<ResolveConflictOutcome, EngineError>,
)
    requires
        lands(pre, at, mem, id, side, write_id, post, r),
    ensures
        storage_kept(pre, post),
        post.host.inner() == pre.host.inner(),
        post.host.calls() == pre.host.calls() + seq![HostCall::Stamp { mem }],
        r matches Ok(o) ==> o.id == id && o.side@ == side.token(),
{
    let (known, mid, warned, read) = choose|
        known: Engine<B, H>,
        mid: Engine<B, H>,
        warned: Vec<WarningHint>,
        read: Result<(), EngineError>,
    |
        #![trigger stamp_reply(&known.host, mem, warned), reloads_all(mid, writable_mems(mid.mounts@), post, read)]
        records_write(pre, known, at, write_id@) && stamp_reply(&known.host, mem, warned) && asked(
            known,
            mid,
            seq![HostCall::Stamp { mem }],
        ) && reloads_all(mid, writable_mems(mid.mounts@), post, read) && match read {
            Err(e) => r == Err::<ResolveConflictOutcome, EngineError>(e),
            Ok(_) => r matches Ok(o) && o.id == id && o.side@ == side.token() && o.write_id
                == write_id && o.warnings@ == warned@,
        };
    assert(storage_kept(pre, known));
    let (trace, got) = choose|
        trace: Seq<Engine<B, H>>,
        got: Seq<Result<MemReload, EngineError>>,
    | #[trigger]
        reload_trace(writable_mems(mid.mounts@), trace, got) && trace[0] == mid && trace.last()
            == post;
    lemma_trace_keeps_storage(writable_mems(mid.mounts@), trace, got, trace.len() - 1);
    assert forall|k: int| 0 <= k < pre.mounts@.len() implies (#[trigger] post.mounts@[k]).backend
        == pre.mounts@[k].backend by {
        assert(known.mounts@[k].backend == pre.mounts@[k].backend);
        assert(mid.mounts@[k].backend == known.mounts@[k].backend);
    }
}

/// Whether between `pre` and `post` nothing was asked of a storage.
pub open spec fn storage_kept<B, H>(pre: Engine<B, H>, post: Engine<B, H>) -> bool {
    &&& post.mounts@.len() == pre.mounts@.len()
    &&& forall|k: int|
        0 <= k < pre.mounts@.len() ==> (#[trigger] post.mounts@[k]).backend
            == pre.mounts@[k].backend
}

/// A resolution is checked first and written at most once. Where nothing may
/// be written, nothing is: no storage is asked for anything and the engine
/// stays as it was. Where something was written, it is a side free of markers
/// that passed what a write is held to, and the storage of its mem was asked
/// for a write, a commit and a log line, in this order, as far as they went
/// well, the last two with the origin of the request; no other storage was
/// asked for anything. Success means all three, and one stamp of the host, and
/// names the entity and the side.
pub proof fn law_resolution_is_checked_and_written_once<B: MemBackend, H: Host>(
    pre: Engine<B, H>,
    id: EntityId,
    side: ConflictSide,
    from: Origin,
    post: Engine<B, H>,
    r: Result<ResolveConflictOutcome, EngineError>,
)
    requires
        resolves(pre, id, side, from, post, r),
    ensures
        folder_of(pre, id_mem(id.0@)) is None ==> post == pre && r is Err,
        folder_of(pre, id_mem(id.0@)) matches Some(target) ==> exists|
            path: Seq<char>,
            content: Seq<char>,
            ts: u64,
            n: int,
        | #[trigger]
            resolved_by(
                pre,
                post,
                target,
                id_mem(id.0@),
                id.0@,
                side,
                from,
                path,
                content,
                ts,
                n,
            ) && (n == 0 ==> r is Err) && (r is Ok ==> n == 3 && post.host.calls()
                == pre.host.calls() + seq![HostCall::Stamp { mem: id_mem(id.0@) }]),
        r matches Ok(o) ==> o.id == id && o.side@ == side.token(),
{
    let mem = id_mem(id.0@);
    if let Some(target) = folder_of(pre, mem) {
        let at = target.0;
        lemma_mount_index(pre.mounts@, mem, 0);
        let reply = choose|reply: Result<Vec<SourceEntry>, String>| #[trigger]
            directory_reply(&pre.host, target.1, reply) && match reply {
                Err(m) => post == pre && (r matches Err(EngineError::InvalidInput(t)) && t@
                    == "read mem directory: "@ + m@),
                Ok(files) => follows_plan(pre, at, views(files@), mem, id, side, from, post, r),
            };
        if post == pre && r is Err {
            let none = resolution_calls(mem, mem, id.0@, side, from, 0u64).take(0);
            assert(none =~= Seq::<StorageCall>::empty());
            assert(pre.mounts@[at].backend.calls() + none =~= pre.mounts@[at].backend.calls());
            assert(resolved_by(pre, post, target, mem, id.0@, side, from, mem, mem, 0u64, 0));
        } else {
            let files = views(reply->Ok_0@);
            let plan = choose|plan: Result<(Seq<char>, Seq<char>), EngineError>| #[trigger]
                plans(files, mem, id.0@, side, plan) && match plan {
                    Err(e) => post == pre && r == Err::<ResolveConflictOutcome, EngineError>(e),
                    Ok((path, content)) => checks_and_writes(
                        pre,
                        at,
                        mem,
                        id,
                        side,
                        from,
                        path,
                        content,
                        post,
                        r,
                    ),
                };
            let (path, content) = plan->Ok_0;
            law_no_markers_are_written(files, mem, id.0@, side, path, content);
            let schema = schema_of(pre.schemas@, mem)->0;
            let valid = choose|valid: Result<(), EngineError>| #[trigger]
                judges_side(&pre.host, schema, content, path, mem, valid) && match valid {
                    Err(e) => post == pre && r == Err::<ResolveConflictOutcome, EngineError>(e),
                    Ok(_) => writes(pre, at, mem, id, side, from, path, content, post, r),
                };
            let passed = valid->Ok_0;
            assert(passed == ());
            assert(valid == Ok::<(), EngineError>(passed));
            let shown = reply->Ok_0;
            assert(reply == Ok::<Vec<SourceEntry>, String>(shown));
            assert(may_be_written(pre, target.1, mem, id.0@, side, path, content));
            let (ts, n) = lemma_writes_in_order(
                pre,
                at,
                mem,
                id,
                side,
                from,
                path,
                content,
                post,
                r,
            );
            assert(resolved_by(
                pre,
                post,
                target,
                mem,
                id.0@,
                side,
                from,
                path,
                content,
                ts,
                n,
            ));
        }
    }
}

/// What writing a side asked of the storage of its mem.
proof fn lemma_writes_in_order<B: MemBackend, H: Host>(
    pre: Engine<B, H>,
    at: int,
    mem: Seq<char>,
    id: EntityId,
    side: ConflictSide,
    from: Origin,
    path: Seq<char>,
    content: Seq<char>,
    post: Engine<B, H>,
    r: Result<ResolveConflictOutcome, EngineError>,
) -> (done: (u64, int))
    requires
        writes(pre, at, mem, id, side, from, path, content, post, r),
    ensures
        0 < done.1 <= 3,
        storage_asked(
            pre,
            post,
            at,
            resolution_calls(path, content, id.0@, side, from, done.0).take(done.1),
        ),
        r is Ok ==> done.1 == 3 && post.host.calls() == pre.host.calls()
            + seq![HostCall::Stamp { mem }],
        r matches Ok(o) ==> o.id == id && o.side@ == side.token(),
{
    let (written, one) = choose|written: Result<(), BackendError>, mid: Engine<B, H>|
        #![trigger write_reply(&pre.mounts@[at].backend, path, content, written), stored(pre, mid, at, write_call(path, content))]
        write_reply(&pre.mounts@[at].backend, path, content, written) && stored(
            pre,
            mid,
            at,
            write_call(path, content),
        ) && match written {
            Err(e) => post == mid && (r matches Err(EngineError::Backend(x)) && x == e),
            Ok(_) => commits(mid, at, mem, id, side, from, post, r),
        };
    let before = pre.mounts@[at].backend.calls();
    if written is Err {
        let calls = resolution_calls(path, content, id.0@, side, from, 0u64);
        assert(before + calls.take(1) =~= before + seq![write_call(path, content)]);
        (0u64, 1)
    } else {
        let (committed, two) = choose|committed: Result<String, BackendError>, mid: Engine<B, H>|
            #![trigger commit_reply(&one.mounts@[at].backend, commit_message(id.0@, side), "resolve_conflict"@, from, committed), stored(one, mid, at, commit_call(id.0@, side, from))]
            commit_reply(
                &one.mounts@[at].backend,
                commit_message(id.0@, side),
                "resolve_conflict"@,
                from,
                committed,
            ) && stored(one, mid, at, commit_call(id.0@, side, from)) && match committed {
                Err(e) => post == mid && (r matches Err(EngineError::Backend(x)) && x == e),
                Ok(write_id) => logs(mid, at, mem, id, side, from, write_id, post, r),
            };
        if committed is Err {
            let calls = resolution_calls(path, content, id.0@, side, from, 0u64);
            assert(before + calls.take(2) =~= before + seq![write_call(path, content)]
                + seq![commit_call(id.0@, side, from)]);
            (0u64, 2)
        } else {
            let write_id = committed->Ok_0;
            let (ts, logged, three) = choose|
                ts: u64,
                logged: Result<(), BackendError>,
                mid: Engine<B, H>,
            |
                #![trigger provenance_reply(&two.mounts@[at].backend, ts, "update"@, id.0@, from, logged), stored(two, mid, at, log_call(ts, id.0@, from))]
                now_reply(&two.host, ts) && provenance_reply(
                    &two.mounts@[at].backend,
                    ts,
                    "update"@,
                    id.0@,
                    from,
                    logged,
                ) && stored(two, mid, at, log_call(ts, id.0@, from)) && match logged {
                    Err(e) => post == mid && (r matches Err(EngineError::Backend(x)) && x == e),
                    Ok(_) => lands(mid, at, mem, id, side, write_id, post, r),
                };
            let calls = resolution_calls(path, content, id.0@, side, from, ts);
            assert(before + calls.take(3) =~= before + seq![write_call(path, content)]
                + seq![commit_call(id.0@, side, from)] + seq![log_call(ts, id.0@, from)]);
            assert forall|k: int| 0 <= k < pre.mounts@.len() && k != at implies (
            #[trigger] three.mounts@[k]).backend == pre.mounts@[k].backend by {
                assert(one.mounts@[k] == pre.mounts@[k]);
                assert(two.mounts@[k] == one.mounts@[k]);
            }
            if logged is Ok {
                lemma_landing_asks_once(three, at, mem, id, side, write_id, post, r);
            }
            (ts, 3)
        }
    }
}

/// Whether the file of an entity is there and carries no markers.
pub open spec fn reads_resolved(
    files: Seq<(Seq<char>, Seq<char>)>,
    mem: Seq<char>,
    id: Seq<char>,
) -> bool {
    file_index(files, mem, id, 0) matches Some(k) && !is_conflicted(files[k].1)
}

/// Once the directory of a mem shows a written resolution, the entity is no
/// longer in conflict: the file that a plan writes carries no markers, so it
/// reads as resolved wherever it is found.
pub proof fn law_written_resolution_reads_resolved(
    files: Seq<(Seq<char>, Seq<char>)>,
    later: Seq<(Seq<char>, Seq<char>)>,
    mem: Seq<char>,
    id: Seq<char>,
    side: ConflictSide,
    path: Seq<char>,
    content: Seq<char>,
)
    requires
        plans(files, mem, id, side, Ok((path, content))),
        file_index(later, mem, id, 0) matches Some(k) && later[k] == (path, content),
    ensures
        reads_resolved(later, mem, id),
{
    law_no_markers_are_written(files, mem, id, side, path, content);
}

/// An entity whose file reads as resolved refuses a resolution to either
/// side: it is answered that nothing is in conflict, and the engine stays as
/// it was.
pub proof fn law_resolved_entity_refuses_resolution<B: MemBackend, H: Host>(
    pre: Engine<B, H>,
    id: EntityId,
    side: ConflictSide,
    from: Origin,
    post: Engine<B, H>,
    r: Result<ResolveConflictOutcome, EngineError>,
)
    requires
        resolves(pre, id, side, from, post, r),
        folder_of(pre, id_mem(id.0@)) is Some,
        forall|reply: Result<Vec<SourceEntry>, String>| #[trigger]
            directory_reply(&pre.host, (folder_of(pre, id_mem(id.0@))->0).1, reply) ==> (reply
                matches Ok(files) && reads_resolved(views(files@), id_mem(id.0@), id.0@)),
    ensures
        post == pre,
        r matches Err(EngineError::NotConflicted { id: named }) && named@ == id.0@,
{
}

/// What is listed as conflicted is a file that carries markers.
proof fn lemma_conflicted(files: Seq<(Seq<char>, Seq<char>)>, mem: Seq<char>, j: int)
    requires
        0 <= j < conflicted(files, mem).len(),
    ensures
        exists|i: int|
            0 <= i < files.len() && is_conflicted((#[trigger] files[i]).1) && conflicted(
                files,
                mem,
            )[j].id == joined_id(mem, without_md(files[i].0)),
    decreases files.len(),
{
    if files.len() > 0 {
        let head = files.drop_last();
        if j < conflicted(head, mem).len() {
            lemma_conflicted(head, mem, j);
            let i = choose|i: int|
                0 <= i < head.len() && is_conflicted((#[trigger] head[i]).1) && conflicted(
                    head,
                    mem,
                )[j].id == joined_id(mem, without_md(head[i].0));
            assert(files[i] == head[i]);
        } else {
            assert(is_conflicted(files[files.len() - 1].1));
        }
    }
}

/// Whether of the files of a mem none that belongs to the entity carries
/// markers.
pub open spec fn shows_clean(
    files: Seq<(Seq<char>, Seq<char>)>,
    mem: Seq<char>,
    id: Seq<char>,
) -> bool {
    forall|i: int|
        0 <= i < files.len() && joined_id(mem, without_md(files[i].0)) == id ==> !is_conflicted(
            (#[trigger] files[i]).1,
        )
}

/// What was found in directories that show an entity clean is not that entity.
proof fn lemma_clean_is_not_found(
    targets: Seq<(Seq<char>, Seq<char>)>,
    replies: Seq<Result<Vec<SourceEntry>, String>>,
    id: Seq<char>,
)
    requires
        replies.len() <= targets.len(),
        forall|i: int|
            0 <= i < replies.len() ==> ((#[trigger] replies[i]) matches Ok(files) ==> shows_clean(
                views(files@),
                targets[i].0,
                id,
            )),
    ensures
        forall|k: int|
            0 <= k < found_in(targets, replies).len() ==> (#[trigger] found_in(
                targets,
                replies,
            )[k]).id != id,
    decreases replies.len(),
{
    if replies.len() > 0 {
        let n = replies.len() - 1;
        let head = replies.drop_last();
        assert forall|i: int| 0 <= i < head.len() implies ((#[trigger] head[i]) matches Ok(files)
            ==> shows_clean(views(files@), targets[i].0, id)) by {
            assert(head[i] == replies[i]);
        }
        lemma_clean_is_not_found(targets, head, id);
        assert(replies[n] == replies.last());
        if let Ok(files) = replies.last() {
            let shown = views(files@);
            let mem = targets[n].0;
            assert forall|k: int| 0 <= k < found_in(targets, replies).len() implies (
            #[trigger] found_in(targets, replies)[k]).id != id by {
                let before = found_in(targets, head).len();
                if k >= before {
                    lemma_conflicted(shown, mem, k - before);
                } else {
                    assert(found_in(targets, replies)[k] == found_in(targets, head)[k]);
                }
            }
        }
    }
}

/// An entity that no directory shows with markers is not listed among the
/// conflicts, of its mem or of all mems.
pub proof fn law_resolved_entity_is_not_listed<H: Host>(
    h: &Surroundings<H>,
    targets: Seq<(Seq<char>, Seq<char>)>,
    id: Seq<char>,
    list: Vec<ConflictedEntity>,
)
    requires
        lists_conflicts(h, targets, Ok::<Vec<ConflictedEntity>, EngineError>(list)),
        forall|i: int, files: Vec<SourceEntry>|
            #![trigger targets[i], directory_reply(h, targets[i].1, Ok::<Vec<SourceEntry>, String>(files))]
            0 <= i < targets.len() && directory_reply(
                h,
                targets[i].1,
                Ok::<Vec<SourceEntry>, String>(files),
            ) ==> shows_clean(views(files@), targets[i].0, id),
    ensures
        forall|j: int| 0 <= j < list@.len() ==> (#[trigger] list@[j]).id.0@ != id,
{
    let less = |a: ConflictedView, b: ConflictedView| lex_less(a.id, b.id);
    let replies = choose|replies: Seq<Result<Vec<SourceEntry>, String>>|
        replies.len() <= targets.len() && (forall|i: int|
            0 <= i < replies.len() ==> directory_reply(
                h,
                targets[i].1,
                #[trigger] replies[i],
            )) && replies.len() == targets.len() && (forall|i: int|
            0 <= i < replies.len() ==> (#[trigger] replies[i]) is Ok) && views(list@) == sorted(
            #[trigger] found_in(targets, replies),
            |a: ConflictedView, b: ConflictedView| lex_less(a.id, b.id),
        );
    let found = found_in(targets, replies);
    assert forall|i: int| 0 <= i < replies.len() implies ((#[trigger] replies[i]) matches Ok(files)
        ==> shows_clean(views(files@), targets[i].0, id)) by {
        if let Ok(files) = replies[i] {
            assert(replies[i] == Ok::<Vec<SourceEntry>, String>(files));
            assert(directory_reply(h, targets[i].1, Ok::<Vec<SourceEntry>, String>(files)));
        }
    }
    lemma_clean_is_not_found(targets, replies, id);
    assert forall|j: int| 0 <= j < list@.len() implies (#[trigger] list@[j]).id.0@ != id by {
        lemma_same_members(found, less, views(list@)[j]);
        assert(views(list@).contains(views(list@)[j]));
        let k = choose|k: int| 0 <= k < found.len() && found[k] == views(list@)[j];
    }
}

/// What is found under an id after entities were put in is the last of them
/// with that id, or what was found before.
proof fn lemma_found_among(s: Seq<Entity>, more: Seq<Entity>, id: Seq<char>)
    ensures
        entity_of(with_entities(s, more), id) == entity_of(s, id) || (entity_of(
            with_entities(s, more),
            id,
        ) is Some && more.contains(entity_of(with_entities(s, more), id)->0)),
        (exists|i: int| 0 <= i < more.len() && (#[trigger] more[i]).id.0@ == id) ==> entity_of(
            with_entities(s, more),
            id,
        ) is Some && more.contains(entity_of(with_entities(s, more), id)->0),
        (forall|i: int| 0 <= i < more.len() ==> (#[trigger] more[i]).id.0@ != id) ==> entity_of(
            with_entities(s, more),
            id,
        ) == entity_of(s, id),
    decreases more.len(),
{
    if more.len() > 0 {
        let head = more.drop_last();
        let e = more.last();
        lemma_found_among(s, head, id);
        lemma_put_entity(with_entities(s, head), e, id);
        assert(more[more.len() - 1] == e);
        assert forall|x: Entity| head.contains(x) implies more.contains(x) by {
            let k = choose|k: int| 0 <= k < head.len() && head[k] == x;
            assert(more[k] == x);
        }
        if exists|i: int| 0 <= i < more.len() && (#[trigger] more[i]).id.0@ == id {
            let i = choose|i: int| 0 <= i < more.len() && (#[trigger] more[i]).id.0@ == id;
            if i < head.len() {
                assert(head[i].id.0@ == id);
            }
        }
        if forall|i: int| 0 <= i < more.len() ==> (#[trigger] more[i]).id.0@ != id {
            assert forall|i: int| 0 <= i < head.len() implies (#[trigger] head[i]).id.0@ != id by {
                assert(more[i] == head[i]);
            }
        }
    }
}

/// Taking the entities of a mem out keeps what is found of another.
proof fn lemma_other_mem_stays(s: Seq<Entity>, mem: Seq<char>, id: Seq<char>)
    ensures
        entity_of(s, id) is None ==> entity_of(without_mem(s, mem), id) is None,
        entity_of(s, id) is Some && (entity_of(s, id)->0).mem@ != mem ==> entity_of(
            without_mem(s, mem),
            id,
        ) == entity_of(s, id),
    decreases s.len(),
{
    if s.len() > 0 {
        let head = s.drop_last();
        let e = s.last();
        lemma_other_mem_stays(head, mem, id);
        assert(head.push(e) =~= s);
        lemma_push_entity(head, e, id);
        lemma_push_entity(without_mem(head, mem), e, id);
    }
}

/// Whether the entities that the host's loader gives of a mem are of it, by
/// their field and by their id, and none is a stub.
pub open spec fn loads_own_ids<H: Host>(h: &Surroundings<H>) -> bool {
    forall|
        entries: Seq<(Seq<char>, Seq<char>)>,
        failures: Seq<(Seq<char>, Seq<char>)>,
        mem: Seq<char>,
        schema: Arc<Schema>,
        known: Seq<Seq<char>>,
        load: LoadResult,
        i: int,
    |
        #![trigger parse_reply(h, entries, failures, mem, schema, known, load), load.entities@[i]]
        parse_reply(h, entries, failures, mem, schema, known, load) && 0 <= i
            < load.entities@.len() ==> load.entities@[i].mem@ == mem && id_mem(
            load.entities@[i].id.0@,
        ) == mem && !load.entities@[i].stub
}

/// Whether storage reads, and shows a file as it was written.
pub open spec fn shows_file<B: MemBackend>(
    b: &Storage<B>,
    path: Seq<char>,
    content: Seq<char>,
) -> bool {
    forall|reply: Result<Vec<(String, Result<Vec<u8>, String>)>, BackendError>| #[trigger]
        reads_reply(b, reply) ==> (reply matches Ok(reads) && read_entries(reads@).contains(
            (path, content),
        ))
}

/// Whether the store holds the entity `id`, as one of `mem` and no stub.
pub open spec fn holds_entity<B, H>(engine: Engine<B, H>, mem: Seq<char>, id: Seq<char>) -> bool {
    entity_of(engine.store.entities@, id) matches Some(e) && e.mem@ == mem && !e.stub
}

/// Reading a mem again brings in the entity of a file that its storage shows,
/// and keeps the entities of other mems.
proof fn lemma_reload_holds<B: MemBackend, H: Host>(
    pre: Engine<B, H>,
    name: Seq<char>,
    post: Engine<B, H>,
    r: Result<MemReload, EngineError>,
    mem: Seq<char>,
    path: Seq<char>,
    content: Seq<char>,
    id: Seq<char>,
)
    requires
        reloads(pre, name, post, r),
        r is Ok,
        id_mem(id) == mem,
        loads_own_ids(&pre.host),
        loads_file(&pre.host, mem, path, content, id),
        name == mem ==> (pre.mount_of(mem) matches Some(m) && shows_file(
            &m.backend,
            path,
            content,
        )),
        name == mem || holds_entity(pre, mem, id),
    ensures
        holds_entity(post, mem, id),
{
    lemma_mount_index(pre.mounts@, name, 0);
    let at = pre.mount_at(name)->0;
    let schema = schema_of(pre.schemas@, name)->0;
    let reply = choose|reply: Result<Vec<(String, Result<Vec<u8>, String>)>, BackendError>|
        #[trigger]
        reads_reply(&pre.mounts@[at].backend, reply) && match reply {
            Err(e) => false,
            Ok(reads) => r matches Ok(report) && reload_lands(
                pre,
                name,
                at,
                schema,
                reads@,
                post,
                report,
            ),
        };
    let reads = reply->Ok_0@;
    let (hint, load) = choose|hint: Option<WarningHint>, load: LoadResult|
        #![trigger probed_hint(pre.mounts@[at].mount, &pre.mounts@[at].backend, Some(read_entries(reads).len()), hint), parse_reply(&pre.host, read_entries(reads), read_failures(reads), name, schema, Seq::empty(), load)]
        probed_hint(
            pre.mounts@[at].mount,
            &pre.mounts@[at].backend,
            Some(read_entries(reads).len()),
            hint,
        ) && parse_reply(
            &pre.host,
            read_entries(reads),
            read_failures(reads),
            name,
            schema,
            Seq::empty(),
            load,
        ) && swaps_mem(pre, post, at, reads, hint, load);
    let kept = without_mem(pre.store.entities@, name);
    lemma_other_mem_stays(pre.store.entities@, name, id);
    lemma_found_among(kept, load.entities@, id);
    if name == mem {
        let e = entity_of(with_entities(kept, load.entities@), id)->0;
        let i = choose|i: int| 0 <= i < load.entities@.len() && load.entities@[i] == e;
        assert(load.entities@[i].mem@ == mem);
    } else {
        assert forall|i: int| 0 <= i < load.entities@.len() implies (
        #[trigger] load.entities@[i]).id.0@ != id by {
            assert(id_mem(load.entities@[i].id.0@) == name);
        }
    }
}

/// Once a mem was read again, its entity stays while others are.
proof fn lemma_trace_holds<B: MemBackend, H: Host>(
    names: Seq<Seq<char>>,
    trace: Seq<Engine<B, H>>,
    got: Seq<Result<MemReload, EngineError>>,
    first: int,
    n: int,
    at: int,
    mem: Seq<char>,
    path: Seq<char>,
    content: Seq<char>,
    id: Seq<char>,
)
    requires
        reload_trace(names, trace, got),
        got.len() > 0 ==> got.last() is Ok,
        0 <= first < n < trace.len(),
        names[first] == mem,
        id_mem(id) == mem,
        trace[0].mount_at(mem) == Some(at),
        loads_own_ids(&trace[0].host),
        loads_file(&trace[0].host, mem, path, content, id),
        shows_file(&trace[0].mounts@[at].backend, path, content),
    ensures
        holds_entity(trace[n], mem, id),
    decreases n,
{
    let l = n - 1;
    if first < l {
        lemma_trace_holds(names, trace, got, first, l, at, mem, path, content, id);
    }
    lemma_mount_index(trace[0].mounts@, mem, 0);
    lemma_trace_keeps_storage(names, trace, got, l);
    assert forall|k: int| 0 <= k < trace[0].mounts@.len() implies (
    #[trigger] trace[l].mounts@[k]).mount == trace[0].mounts@[k].mount by {}
    lemma_same_names(trace[0].mounts@, trace[l].mounts@, mem, 0);
    assert(trace[l].mounts@[at].backend == trace[0].mounts@[at].backend);
    assert(reloads(trace[l], names[l], trace[l + 1], got[l]));
    assert(got[l] is Ok);
    lemma_reload_holds(trace[l], names[l], trace[n], got[l], mem, path, content, id);
}

/// A writable mount is among those that are read again.
proof fn lemma_writable_is_read<B>(mounts: Seq<MountedBackend<B>>, at: int) -> (i: int)
    requires
        0 <= at < mounts.len(),
        mounts[at].mount.capability == MountCapability::Write,
    ensures
        0 <= i < writable_mems(mounts).len(),
        writable_mems(mounts)[i] == mounts[at].mount.mem@,
    decreases mounts.len(),
{
    let head = mounts.drop_last();
    if at < head.len() {
        assert(head[at] == mounts[at]);
        let i = lemma_writable_is_read(head, at);
        assert(writable_mems(mounts)[i] == writable_mems(head)[i]);
        i
    } else {
        writable_mems(head).len() as int
    }
}

/// The last steps of a resolution that went well leave its entity in the
/// store, where the storage shows the file and the loader takes it.
proof fn lemma_landing_holds<B: MemBackend, H: Host>(
    pre: Engine<B, H>,
    at: int,
    mem: Seq<char>,
    id: EntityId,
    side: ConflictSide,
    write_id: String,
    post: Engine<B, H>,
    r: Result<ResolveConflictOutcome, EngineError>,
    path: Seq<char>,
    content: Seq<char>,
)
    requires
        lands(pre, at, mem, id, side, write_id, post, r),
        r is Ok,
        pre.mount_at(mem) == Some(at),
        pre.mounts@[at].mount.capability == MountCapability::Write,
        id_mem(id.0@) == mem,
        loads_own_ids(&post.host),
        loads_file(&post.host, mem, path, content, id.0@),
        shows_file(&post.mounts@[at].backend, path, content),
    ensures
        holds_entity(post, mem, id.0@),
{
    let (known, mid, warned, read) = choose|
        known: Engine<B, H>,
        mid: Engine<B, H>,
        warned: Vec<WarningHint>,
        read: Result<(), EngineError>,
    |
        #![trigger stamp_reply(&known.host, mem, warned), reloads_all(mid, writable_mems(mid.mounts@), post, read)]
        records_write(pre, known, at, write_id@) && stamp_reply(&known.host, mem, warned) && asked(
            known,
            mid,
            seq![HostCall::Stamp { mem }],
        ) && reloads_all(mid, writable_mems(mid.mounts@), post, read) && match read {
            Err(e) => r == Err::<ResolveConflictOutcome, EngineError>(e),
            Ok(_) => r matches Ok(o) && o.id == id && o.side@ == side.token() && o.write_id
                == write_id && o.warnings@ == warned@,
        };
    lemma_mount_index(pre.mounts@, mem, 0);
    assert forall|k: int| 0 <= k < pre.mounts@.len() implies (#[trigger] mid.mounts@[k]).mount
        == pre.mounts@[k].mount by {
        assert(known.mounts@[k].mount == pre.mounts@[k].mount);
    }
    lemma_same_names(pre.mounts@, mid.mounts@, mem, 0);
    let names = writable_mems(mid.mounts@);
    assert(mid.mounts@[at].mount == pre.mounts@[at].mount);
    let first = lemma_writable_is_read(mid.mounts@, at);
    let (trace, got) = choose|
        trace: Seq<Engine<B, H>>,
        got: Seq<Result<MemReload, EngineError>>,
    | #[trigger]
        reload_trace(names, trace, got) && trace[0] == mid && trace.last() == post && got.len()
            == names.len() && (got.len() > 0 ==> got.last() is Ok);
    let n = trace.len() - 1;
    lemma_trace_keeps_storage(names, trace, got, n);
    assert(trace[n].mounts@[at].backend == trace[0].mounts@[at].backend);
    lemma_trace_holds(names, trace, got, first, n, at, mem, path, content, id.0@);
}

/// After a resolution that went well the entity is stored: where the storage
/// shows the file as the account says that it was written, and the host's
/// loader gives an entity for it, the store holds that entity, as one of its
/// mem and no stub.
pub proof fn law_resolved_entity_is_stored<B: MemBackend, H: Host>(
    pre: Engine<B, H>,
    id: EntityId,
    side: ConflictSide,
    from: Origin,
    post: Engine<B, H>,
    r: Result<ResolveConflictOutcome, EngineError>,
    target: (int, Seq<char>),
    path: Seq<char>,
    content: Seq<char>,
    ts: u64,
)
    requires
        resolves(pre, id, side, from, post, r),
        r is Ok,
        folder_of(pre, id_mem(id.0@)) == Some(target),
        resolved_by(pre, post, target, id_mem(id.0@), id.0@, side, from, path, content, ts, 3),
        loads_own_ids(&post.host),
        loads_file(&post.host, id_mem(id.0@), path, content, id.0@),
        shows_file(&post.mounts@[target.0].backend, path, content),
    ensures
        holds_entity(post, id_mem(id.0@), id.0@),
{
    let mem = id_mem(id.0@);
    let at = target.0;
    let root = target.1;
    lemma_mount_index(pre.mounts@, mem, 0);
    let reply = choose|reply: Result<Vec<SourceEntry>, String>| #[trigger]
        directory_reply(&pre.host, root, reply) && match reply {
            Err(m) => false,
            Ok(files) => follows_plan(pre, at, views(files@), mem, id, side, from, post, r),
        };
    let files = views(reply->Ok_0@);
    let plan = choose|plan: Result<(Seq<char>, Seq<char>), EngineError>| #[trigger]
        plans(files, mem, id.0@, side, plan) && match plan {
            Err(e) => false,
            Ok((p, c)) => checks_and_writes(pre, at, mem, id, side, from, p, c, post, r),
        };
    let (p, c) = plan->Ok_0;
    let schema = schema_of(pre.schemas@, mem)->0;
    let valid = choose|valid: Result<(), EngineError>| #[trigger]
        judges_side(&pre.host, schema, c, p, mem, valid) && match valid {
            Err(e) => false,
            Ok(_) => writes(pre, at, mem, id, side, from, p, c, post, r),
        };
    assert(writes(pre, at, mem, id, side, from, p, c, post, r));
    let (three, write_id) = lemma_success_lands(pre, at, mem, id, side, from, p, c, post, r);
    lemma_same_names(pre.mounts@, three.mounts@, mem, 0);
    lemma_landing_holds(three, at, mem, id, side, write_id, post, r, path, content);
}

/// Writing a side that went well ended with the last steps of a resolution.
proof fn lemma_success_lands<B: MemBackend, H: Host>(
    pre: Engine<B, H>,
    at: int,
    mem: Seq<char>,
    id: EntityId,
    side: ConflictSide,
    from: Origin,
    path: Seq<char>,
    content: Seq<char>,
    post: Engine<B, H>,
    r: Result<ResolveConflictOutcome, EngineError>,
) -> (last: (Engine<B, H>, String))
    requires
        writes(pre, at, mem, id, side, from, path, content, post, r),
        r is Ok,
    ensures
        lands(last.0, at, mem, id, side, last.1, post, r),
        last.0.mounts@.len() == pre.mounts@.len(),
        forall|k: int|
            0 <= k < pre.mounts@.len() ==> (#[trigger] last.0.mounts@[k]).mount
                == pre.mounts@[k].mount,
{
    let (written, one) = choose|written: Result<(), BackendError>, mid: Engine<B, H>|
        #![trigger write_reply(&pre.mounts@[at].backend, path, content, written), stored(pre, mid, at, write_call(path, content))]
        write_reply(&pre.mounts@[at].backend, path, content, written) && stored(
            pre,
            mid,
            at,
            write_call(path, content),
        ) && match written {
            Err(e) => false,
            Ok(_) => commits(mid, at, mem, id, side, from, post, r),
        };
    let (committed, two) = choose|committed: Result<String, BackendError>, mid: Engine<B, H>|
        #![trigger commit_reply(&one.mounts@[at].backend, commit_message(id.0@, side), "resolve_conflict"@, from, committed), stored(one, mid, at, commit_call(id.0@, side, from))]
        commit_reply(
            &one.mounts@[at].backend,
            commit_message(id.0@, side),
            "resolve_conflict"@,
            from,
            committed,
        ) && stored(one, mid, at, commit_call(id.0@, side, from)) && match committed {
            Err(e) => false,
            Ok(write_id) => logs(mid, at, mem, id, side, from, write_id, post, r),
        };
    let write_id = committed->Ok_0;
    let (ts, logged, three) = choose|
        ts: u64,
        logged: Result<(), BackendError>,
        mid: Engine<B, H>,
    |
        #![trigger provenance_reply(&two.mounts@[at].backend, ts, "update"@, id.0@, from, logged), stored(two, mid, at, log_call(ts, id.0@, from))]
        now_reply(&two.host, ts) && provenance_reply(
            &two.mounts@[at].backend,
            ts,
            "update"@,
            id.0@,
            from,
            logged,
        ) && stored(two, mid, at, log_call(ts, id.0@, from)) && match logged {
            Err(e) => false,
            Ok(_) => lands(mid, at, mem, id, side, write_id, post, r),
        };
    assert forall|k: int| 0 <= k < pre.mounts@.len() implies (#[trigger] three.mounts@[k]).mount
        == pre.mounts@[k].mount by {
        assert(one.mounts@[k].mount == pre.mounts@[k].mount);
        assert(two.mounts@[k].mount == one.mounts@[k].mount);
    }
    (three, write_id)
}

/// Whether `r` lists the conflicts of a mem, or of all mems.
pub open spec fn lists_for<B, H: Host>(
    engine: Engine<B, H>,
    mem: Option<Seq<char>>,
    r: Result<Vec<ConflictedEntity>, EngineError>,
) -> bool {
    match mem {
        Some(name) => match folder_of(engine, name) {
            Some(target) => lists_conflicts(&engine.host, seq![(name, target.1)], r),
            None => r matches Err(e) && refuses_folder(engine, name, e),
        },
        None => lists_conflicts(&engine.host, folder_targets(engine.mounts@), r),
    }
}

} // verus!
