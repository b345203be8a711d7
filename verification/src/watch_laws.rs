//! What holds of watched heads, of subscriptions and of versions.

use crate::events::{callbacks_of, Subscriber};
use crate::file_watcher::{
    after_touch, first_heads, named_sha, part_texts, ref_name, told, PathPart,
};
use crate::text::{is_space, join, lemma_ascii_len, trim, trim_end, trim_start};
use crate::version::{ascending, newest, older, place};
use vstd::prelude::*;

verus! {

// ---------------------------------------------------------------------
// Heads
// ---------------------------------------------------------------------

/// Whether a text names a commit: forty hexadecimal digits.
pub open spec fn names_commit(s: Seq<char>) -> bool {
    s.len() == 40 && forall|i: int|
        0 <= i < 40 ==> '0' <= #[trigger] s[i] <= '9' || 'a' <= s[i] <= 'f' || 'A' <= s[i] <= 'F'
}

/// A ref file that holds the name of a commit, with or without a line feed
/// behind it, is read as that commit; what is read as a commit is the name of
/// one.
pub proof fn law_ref_file_reads_back(sha: Seq<char>, raw: Seq<char>)
    ensures
        names_commit(sha) ==> named_sha(sha) == Some(sha) && named_sha(sha.push('\n')) == Some(sha),
        named_sha(raw) matches Some(s) ==> names_commit(s) && s == trim(raw),
{
    if names_commit(sha) {
        let line = sha.push('\n');
        assert forall|i: int| 0 <= i < 41 implies (#[trigger] line[i] as u32) < 0x80 by {
            if i < 40 {
                assert(line[i] == sha[i]);
                assert('0' <= sha[i] <= '9' || 'a' <= sha[i] <= 'f' || 'A' <= sha[i] <= 'F');
            }
        }
        assert forall|i: int| 0 <= i < 40 implies (#[trigger] sha[i] as u32) < 0x80 by {
            assert('0' <= sha[i] <= '9' || 'a' <= sha[i] <= 'f' || 'A' <= sha[i] <= 'F');
        }
        lemma_ascii_len(line, 41);
        lemma_ascii_len(sha, 40);
        assert(line.take(41) =~= line);
        assert(sha.take(40) =~= sha);
        assert('0' <= sha[0] <= '9' || 'a' <= sha[0] <= 'f' || 'A' <= sha[0] <= 'F');
        assert('0' <= sha[39] <= '9' || 'a' <= sha[39] <= 'f' || 'A' <= sha[39] <= 'F');
        assert(!is_space(sha[0]) && !is_space(sha[39]));
        assert(line[0] == sha[0]);
        assert(trim_start(line) == line);
        assert(line.drop_last() =~= sha);
        assert(is_space('\n'));
        assert(trim_end(sha) == sha);
        assert(trim_end(line) == sha);
        assert(trim(sha) == sha);
        assert forall|i: int| 0 <= i < 40 implies crate::file_watcher::is_hex(
            #[trigger] sha[i],
        ) by {
            assert('0' <= sha[i] <= '9' || 'a' <= sha[i] <= 'f' || 'A' <= sha[i] <= 'F');
        }
    }
    if let Some(s) = named_sha(raw) {
        assert forall|i: int| 0 <= i < 40 implies '0' <= #[trigger] s[i] <= '9' || 'a' <= s[i]
            <= 'f' || 'A' <= s[i] <= 'F' by {
            assert(crate::file_watcher::is_hex(s[i]));
        }
    }
}

/// A touched ref is told of just where its head is another than the one that
/// is known, with the known one, or nothing where none is. Afterwards that head
/// is known, and those of the other mems are as before.
pub proof fn law_touch_is_told_and_kept(
    heads: Map<Seq<char>, Seq<char>>,
    mem: Seq<char>,
    sha: Seq<char>,
    other: Seq<char>,
)
    requires
        sha.len() > 0,
        other != mem,
    ensures
        heads.dom().contains(mem) && heads[mem] == sha ==> told(heads, mem, sha) is None,
        heads.dom().contains(mem) && heads[mem] != sha ==> told(heads, mem, sha) == Some(
            heads[mem],
        ),
        !heads.dom().contains(mem) ==> told(heads, mem, sha) == Some(Seq::<char>::empty()),
        after_touch(heads, mem, sha).dom().contains(mem),
        after_touch(heads, mem, sha)[mem] == sha,
        after_touch(heads, mem, sha).dom().contains(other) == heads.dom().contains(other),
        heads.dom().contains(other) ==> after_touch(heads, mem, sha)[other] == heads[other],
        told(after_touch(heads, mem, sha), mem, sha) is None,
{
}

/// At the start the known heads are those of the files that name a commit.
#[verifier::rlimit(40)]
pub proof fn law_first_heads_are_those_named(files: Seq<(String, String)>, mem: Seq<char>)
    requires
        forall|i: int, j: int|
            0 <= i < j < files.len() ==> (#[trigger] files[i]).0@ != (#[trigger] files[j]).0@,
    ensures
        forall|i: int|
            0 <= i < files.len() && (#[trigger] files[i]).0@ == mem ==> (match named_sha(
                files[i].1@,
            ) {
                Some(sha) => first_heads(files).dom().contains(mem) && first_heads(files)[mem]
                    == sha,
                None => !first_heads(files).dom().contains(mem),
            }),
        first_heads(files).dom().contains(mem) ==> exists|i: int|
            0 <= i < files.len() && (#[trigger] files[i]).0@ == mem,
    decreases files.len(),
{
    if files.len() > 0 {
        let head = files.drop_last();
        let n = files.len() - 1;
        assert forall|i: int, j: int| 0 <= i < j < head.len() implies (#[trigger] head[i]).0@ != (
        #[trigger] head[j]).0@ by {
            assert(head[i] == files[i] && head[j] == files[j]);
        }
        law_first_heads_are_those_named(head, mem);
        assert(files[n] == files.last());
        assert forall|i: int| 0 <= i < files.len() && (#[trigger] files[i]).0@ == mem implies (
        match named_sha(files[i].1@) {
            Some(sha) => first_heads(files).dom().contains(mem) && first_heads(files)[mem] == sha,
            None => !first_heads(files).dom().contains(mem),
        }) by {
            if i < n {
                assert(head[i] == files[i]);
                assert(files[i].0@ != files[n].0@);
            } else if first_heads(head).dom().contains(mem) {
                let k = choose|k: int| 0 <= k < head.len() && (#[trigger] head[k]).0@ == mem;
                assert(files[k] == head[k]);
                assert(files[k].0@ != files[n].0@);
            }
        }
        if first_heads(files).dom().contains(mem) {
            if files[n].0@ != mem {
                let k = choose|k: int| 0 <= k < head.len() && (#[trigger] head[k]).0@ == mem;
                assert(files[k] == head[k]);
            }
        }
    }
}

/// The name of a ref is the parts of its path below the base, with slashes
/// between them; a path that does not lie below the base names no ref.
pub proof fn law_ref_is_named_from_its_base(
    base: Seq<PathPart>,
    below: Seq<PathPart>,
    names: Seq<Seq<char>>,
    path: Seq<PathPart>,
    i: int,
)
    requires
        names.len() == below.len(),
        forall|k: int|
            0 <= k < below.len() ==> ((#[trigger] below[k]).text matches Some(t) && t@ == names[k]),
        0 <= i < base.len(),
        i >= path.len() || path[i].raw@ != base[i].raw@,
    ensures
        ref_name(base, base + below) == Some(join(names, "/"@)),
        ref_name(base, path) is None,
{
    assert((base + below).skip(base.len() as int) =~= below);
    lemma_part_texts(below, names);
    assert forall|k: int| 0 <= k < base.len() implies (#[trigger] base[k]).raw@ == (base
        + below)[k].raw@ by {
        assert((base + below)[k] == base[k]);
    }
    if crate::file_watcher::lies_under(base, path) {
        assert(base[i].raw@ == path[i].raw@);
    }
}

/// The texts of parts that all have one.
proof fn lemma_part_texts(parts: Seq<PathPart>, names: Seq<Seq<char>>)
    requires
        names.len() == parts.len(),
        forall|k: int|
            0 <= k < parts.len() ==> ((#[trigger] parts[k]).text matches Some(t) && t@ == names[k]),
    ensures
        part_texts(parts) == names,
    decreases parts.len(),
{
    if parts.len() > 0 {
        let head = parts.drop_last();
        assert forall|k: int| 0 <= k < head.len() implies ((#[trigger] head[k]).text matches Some(t)
            && t@ == names.drop_last()[k]) by {
            assert(head[k] == parts[k]);
        }
        lemma_part_texts(head, names.drop_last());
        assert(parts.last() == parts[parts.len() - 1]);
        assert(names =~= names.drop_last().push(names.last()));
    } else {
        assert(names =~= Seq::empty());
    }
}

// ---------------------------------------------------------------------
// Subscriptions
// ---------------------------------------------------------------------

/// Who is told of a vault is who subscribed to it, in the order in which they
/// did, and nobody else.
pub proof fn law_subscribers_of_a_vault_are_told<C>(s: Seq<Subscriber<C>>, vault: Seq<char>)
    ensures
        callbacks_of(s, vault) == s.filter(|x: Subscriber<C>| x.vault@ == vault).map_values(
            |x: Subscriber<C>| x.callback,
        ),
    decreases s.len(),
{
    reveal(Seq::filter);
    let at = |x: Subscriber<C>| x.vault@ == vault;
    let call = |x: Subscriber<C>| x.callback;
    if s.len() > 0 {
        law_subscribers_of_a_vault_are_told(s.drop_last(), vault);
        let rest = s.drop_last().filter(at);
        if s.last().vault@ == vault {
            assert(s.filter(at) == rest.push(s.last()));
            assert(rest.push(s.last()).map_values(call) =~= rest.map_values(call).push(
                s.last().callback,
            ));
        } else {
            assert(s.filter(at) == rest);
        }
    } else {
        assert(callbacks_of(s, vault) =~= s.filter(at).map_values(call));
    }
}

// ---------------------------------------------------------------------
// Versions
// ---------------------------------------------------------------------

/// Whether versions stand in a total order.
pub open spec fn in_total_order(versions: Seq<Seq<char>>) -> bool {
    &&& forall|a: Seq<char>, b: Seq<char>|
        versions.contains(a) && versions.contains(b) && a != b ==> #[trigger] older(a, b) || older(
            b,
            a,
        )
    &&& forall|a: Seq<char>, b: Seq<char>| #[trigger] older(a, b) ==> !older(b, a)
    &&& forall|a: Seq<char>, b: Seq<char>, c: Seq<char>| #[trigger]
        older(a, b) && #[trigger] older(b, c) ==> older(a, c)
}

/// The newest of versions that stand in a total order is one of them, and
/// every other is older.
pub proof fn law_newest_is_newer_than_the_others(versions: Seq<Seq<char>>, v: Seq<char>)
    requires
        in_total_order(versions),
        versions.contains(v),
    ensures
        newest(versions) matches Some(best) && versions.contains(best) && (v == best || older(
            v,
            best,
        )),
    decreases versions.len(),
{
    let head = versions.drop_last();
    let last = versions.last();
    let n = versions.len() - 1;
    assert(versions[n] == last);
    if head.len() > 0 {
        assert forall|a: Seq<char>| head.contains(a) implies #[trigger] versions.contains(a) by {
            let k = choose|k: int| 0 <= k < head.len() && head[k] == a;
            assert(versions[k] == a);
        }
        assert(in_total_order(head));
        assert(head[0] == versions[0]);
        assert(head.contains(head[0]));
        law_newest_is_newer_than_the_others(head, head[0]);
        let best = newest(head)->0;
        assert(versions.contains(best));
        assert(versions.contains(last));
        let i = choose|i: int| 0 <= i < versions.len() && versions[i] == v;
        if i < n {
            assert(head[i] == v);
            assert(head.contains(v));
            law_newest_is_newer_than_the_others(head, v);
        } else {
            assert(v == last);
            if !older(best, last) && best != last {
                assert(older(last, best) || older(best, last));
            }
        }
    }
}

/// Versions in ascending order hold every version of the list, each once, an
/// older one before a newer.
#[verifier::rlimit(40)]
pub proof fn law_versions_ascend(versions: Seq<Seq<char>>)
    requires
        in_total_order(versions),
    ensures
        forall|i: int, j: int|
            0 <= i < j < ascending(versions).len() ==> older(
                #[trigger] ascending(versions)[i],
                #[trigger] ascending(versions)[j],
            ),
    decreases versions.len(),
{
    if versions.len() > 0 {
        let head = versions.drop_last();
        let v = versions.last();
        let n = versions.len() - 1;
        assert(versions[n] == v);
        assert forall|a: Seq<char>| head.contains(a) implies #[trigger] versions.contains(a) by {
            let k = choose|k: int| 0 <= k < head.len() && head[k] == a;
            assert(versions[k] == a);
        }
        assert(in_total_order(head));
        law_versions_ascend(head);
        let s = ascending(head);
        if !s.contains(v) {
            let k = place(s, v, 0);
            lemma_place_parts(s, v, 0);
            let t = s.insert(k, v);
            assert(ascending(versions) == t);
            assert forall|i: int| 0 <= i < k implies older(#[trigger] s[i], v) by {
                assert(s.contains(s[i]));
                crate::version::law_ascending_keeps(head, s[i]);
                assert(versions.contains(s[i]) && versions.contains(v));
                assert(s[i] != v);
                assert(older(s[i], v) || older(v, s[i]));
            }
            assert forall|i: int| k <= i < s.len() implies older(v, #[trigger] s[i]) by {
                if i > k {
                    assert(older(s[k], s[i]));
                }
            }
            assert forall|i: int, j: int| 0 <= i < j < t.len() implies older(
                #[trigger] t[i],
                #[trigger] t[j],
            ) by {
                let a = if i < k {
                    i
                } else {
                    i - 1
                };
                let b = if j < k {
                    j
                } else {
                    j - 1
                };
                if i != k {
                    assert(t[i] == s[a]);
                }
                if j != k {
                    assert(t[j] == s[b]);
                }
                if i != k && j != k {
                    assert(older(s[a], s[b]));
                }
            }
        }
    }
}

/// Before the place found no version is newer, and the one at it is.
proof fn lemma_place_parts(s: Seq<Seq<char>>, v: Seq<char>, i: int)
    requires
        0 <= i <= s.len(),
    ensures
        i <= place(s, v, i) <= s.len(),
        forall|j: int| i <= j < place(s, v, i) ==> !older(v, #[trigger] s[j]),
        place(s, v, i) < s.len() ==> older(v, s[place(s, v, i)]),
    decreases s.len() - i,
{
    if i < s.len() && !older(v, s[i]) {
        lemma_place_parts(s, v, i + 1);
    }
}

} // verus!
