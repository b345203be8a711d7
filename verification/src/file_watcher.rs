//! Watching the branches of a mem repository: which file is which mem's head,
//! and which change of it is told.
//!
//! Reading the files and waiting for them is the caller's part. A burst of
//! notices about one head is told once, because a head is told only where it
//! differs from the one that was told last.

use crate::events::VaultChangedEvent;
use crate::text::{
    byte_len, bytes_exceed, chars_of, join, join_list, own, same, texts, trim, trimmed,
};
use vstd::prelude::*;

verus! {

/// Why no watch was started.
#[derive(Debug, Clone)]
pub enum FileWatcherError {
    /// The repository has no directory of branches at this path.
    RefsHeadsMissing(String),
    /// The watcher did not start.
    Notify(String),
    /// A branch file could not be read at the start.
    Io(String),
}

impl FileWatcherError {
    /// What the error says.
    pub open spec fn text(&self) -> Seq<char> {
        match *self {
            FileWatcherError::RefsHeadsMissing(p) =>
                "refs/heads directory not found under gitdir: "@ + p@,
            FileWatcherError::Notify(m) => "notify error: "@ + m@,
            FileWatcherError::Io(m) => "io error reading initial refs/heads state: "@ + m@,
        }
    }

    /// What the error says.
    pub fn to_text(&self) -> (r: String)
        ensures
            r@ == self.text(),
    {
        match self {
            FileWatcherError::RefsHeadsMissing(p) =>
                "refs/heads directory not found under gitdir: ".to_owned().concat(p),
            FileWatcherError::Notify(m) => "notify error: ".to_owned().concat(m),
            FileWatcherError::Io(m) => "io error reading initial refs/heads state: ".to_owned().concat(
            m),
        }
    }
}

/// Whether a repository can be watched, by whether its directory of branches
/// is there.
pub fn check_refs_heads(path: &str, is_dir: bool) -> (r: Result<(), FileWatcherError>)
    ensures
        is_dir ==> r is Ok,
        !is_dir ==> (r matches Err(FileWatcherError::RefsHeadsMissing(p)) && p@ == path@),
{
    if is_dir {
        Ok(())
    } else {
        Err(FileWatcherError::RefsHeadsMissing(own(path)))
    }
}

// ---------------------------------------------------------------------
// Names
// ---------------------------------------------------------------------

/// One component of a path: its bytes, and its text where it has one.
#[derive(Debug, Clone)]
pub struct PathPart {
    pub raw: Vec<u8>,
    pub text: Option<String>,
}

/// Whether a path lies under a directory.
pub open spec fn lies_under(base: Seq<PathPart>, path: Seq<PathPart>) -> bool {
    base.len() <= path.len() && forall|i: int|
        0 <= i < base.len() ==> (#[trigger] base[i]).raw@ == path[i].raw@
}

/// The texts of the components that have one.
pub open spec fn part_texts(parts: Seq<PathPart>) -> Seq<Seq<char>>
    decreases parts.len(),
{
    if parts.len() == 0 {
        Seq::empty()
    } else {
        match parts.last().text {
            Some(t) => part_texts(parts.drop_last()).push(t@),
            None => part_texts(parts.drop_last()),
        }
    }
}

/// The name of the mem whose branch lies at a path under the directory of
/// branches. Directories below it are part of the name.
pub open spec fn ref_name(base: Seq<PathPart>, path: Seq<PathPart>) -> Option<Seq<char>> {
    if lies_under(base, path) {
        Some(join(part_texts(path.skip(base.len() as int)), "/"@))
    } else {
        None
    }
}

/// Whether two components are the same.
fn same_bytes(a: &Vec<u8>, b: &Vec<u8>) -> (r: bool)
    ensures
        r == (a@ == b@),
{
    if a.len() != b.len() {
        return false;
    }
    for i in 0..a.len()
        invariant
            a@.len() == b@.len(),
            forall|k: int| 0 <= k < i ==> a@[k] == b@[k],
    {
        if a[i] != b[i] {
            assert(a@[i as int] != b@[i as int]);
            return false;
        }
    }
    assert(a@ =~= b@);
    true
}

/// The name of the mem whose branch lies at a path.
pub fn mem_name_for_ref_path(base: &Vec<PathPart>, ref_path: &Vec<PathPart>) -> (r: Option<String>)
    ensures
        match r {
            Some(name) => ref_name(base@, ref_path@) == Some(name@),
            None => ref_name(base@, ref_path@) is None,
        },
{
    if base.len() > ref_path.len() {
        return None;
    }
    for i in 0..base.len()
        invariant
            base@.len() <= ref_path@.len(),
            forall|k: int| 0 <= k < i ==> (#[trigger] base@[k]).raw@ == ref_path@[k].raw@,
    {
        if !same_bytes(&base[i].raw, &ref_path[i].raw) {
            assert(base@[i as int].raw@ != ref_path@[i as int].raw@);
            return None;
        }
    }
    let ghost rest = ref_path@.skip(base@.len() as int);
    let mut names: Vec<String> = Vec::new();
    assert(texts(names@) =~= part_texts(rest.take(0)));
    for i in base.len()..ref_path.len()
        invariant
            base@.len() <= ref_path@.len(),
            rest == ref_path@.skip(base@.len() as int),
            texts(names@) == part_texts(rest.take(i - base@.len())),
    {
        let ghost at = i - base@.len();
        let ghost past = texts(names@);
        assert(rest.take(at + 1).drop_last() =~= rest.take(at));
        assert(rest[at] == ref_path@[i as int]);
        if let Some(t) = &ref_path[i].text {
            names.push(t.clone());
            assert(texts(names@) =~= past.push(t@));
        }
    }
    assert(rest.take(rest.len() as int) =~= rest);
    Some(join_list(&names, "/"))
}

// ---------------------------------------------------------------------
// Heads
// ---------------------------------------------------------------------

/// Whether a character is a hexadecimal digit.
pub open spec fn is_hex(c: char) -> bool {
    '0' <= c <= '9' || 'a' <= c <= 'f' || 'A' <= c <= 'F'
}

/// Whether a text is the id of a commit.
pub open spec fn is_sha(s: Seq<char>) -> bool {
    s.len() == 40 && forall|i: int| 0 <= i < s.len() ==> is_hex(#[trigger] s[i])
}

/// How many bytes a branch file holds at most: a commit and a line feed.
pub const REF_FILE_CAP: usize = 41;

/// The commit that a branch file names. A symbolic branch, a file in the
/// middle of being written, or one that is too long names none.
pub open spec fn named_sha(raw: Seq<char>) -> Option<Seq<char>> {
    if byte_len(raw) <= REF_FILE_CAP && is_sha(trim(raw)) {
        Some(trim(raw))
    } else {
        None
    }
}

/// The commit that a branch file names.
pub fn parse_ref_sha(raw: &str) -> (r: Option<String>)
    ensures
        match r {
            Some(sha) => named_sha(raw@) == Some(sha@),
            None => named_sha(raw@) is None,
        },
{
    if bytes_exceed(raw, REF_FILE_CAP) {
        return None;
    }
    let t = trimmed(raw);
    let x = chars_of(&t);
    if x.len() != 40 {
        return None;
    }
    for i in 0..x.len()
        invariant
            x@ == trim(raw@),
            forall|k: int| 0 <= k < i ==> is_hex(#[trigger] x@[k]),
    {
        let c = x[i];
        if !(('0' <= c && c <= '9') || ('a' <= c && c <= 'f') || ('A' <= c && c <= 'F')) {
            assert(!is_hex(trim(raw@)[i as int]));
            return None;
        }
    }
    Some(t)
}

/// The heads that were told last, each under the name of its mem.
pub struct RefHeads {
    pub entries: Vec<(String, String)>,
}

/// The heads by mem.
pub open spec fn head_map(entries: Seq<(String, String)>) -> Map<Seq<char>, Seq<char>>
    decreases entries.len(),
{
    if entries.len() == 0 {
        Map::empty()
    } else {
        head_map(entries.drop_last()).insert(entries.last().0@, entries.last().1@)
    }
}

/// Whether no mem stands twice.
pub open spec fn mems_once(entries: Seq<(String, String)>) -> bool {
    forall|i: int, j: int|
        #![trigger entries[i], entries[j]]
        0 <= i < j < entries.len() ==> entries[i].0@ != entries[j].0@
}

/// A mem stands in the map where it stands in the list, with the head there.
proof fn lemma_head_map(entries: Seq<(String, String)>, mem: Seq<char>)
    requires
        mems_once(entries),
    ensures
        head_map(entries).dom().contains(mem) <==> exists|i: int|
            0 <= i < entries.len() && (#[trigger] entries[i]).0@ == mem,
        forall|i: int|
            0 <= i < entries.len() && (#[trigger] entries[i]).0@ == mem ==> head_map(entries)[mem]
                == entries[i].1@,
    decreases entries.len(),
{
    if entries.len() > 0 {
        let rest = entries.drop_last();
        lemma_head_map(rest, mem);
        assert(forall|i: int| 0 <= i < rest.len() ==> rest[i] == entries[i]);
        if entries.last().0@ == mem {
            assert(entries[entries.len() - 1].0@ == mem);
        } else if exists|i: int| 0 <= i < entries.len() && (#[trigger] entries[i]).0@ == mem {
            let i = choose|i: int| 0 <= i < entries.len() && (#[trigger] entries[i]).0@ == mem;
            assert(rest[i].0@ == mem);
        }
    }
}

/// What a touched branch file tells: the head that was told before, where it
/// is another one.
pub open spec fn told(heads: Map<Seq<char>, Seq<char>>, mem: Seq<char>, sha: Seq<char>) -> Option<
    Seq<char>,
> {
    let previous = if heads.dom().contains(mem) {
        heads[mem]
    } else {
        Seq::empty()
    };
    if previous == sha {
        None
    } else {
        Some(previous)
    }
}

/// The heads after a branch file was touched.
pub open spec fn after_touch(
    heads: Map<Seq<char>, Seq<char>>,
    mem: Seq<char>,
    sha: Seq<char>,
) -> Map<Seq<char>, Seq<char>> {
    if told(heads, mem, sha) is Some {
        heads.insert(mem, sha)
    } else {
        heads
    }
}

impl View for RefHeads {
    type V = Map<Seq<char>, Seq<char>>;

    /// The heads by mem.
    open spec fn view(&self) -> Map<Seq<char>, Seq<char>> {
        head_map(self.entries@)
    }
}

/// The heads that a first look at branch files finds: of each file with a
/// name and a commit, the last one counts.
pub open spec fn first_heads(files: Seq<(String, String)>) -> Map<Seq<char>, Seq<char>>
    decreases files.len(),
{
    if files.len() == 0 {
        Map::empty()
    } else {
        let rest = first_heads(files.drop_last());
        match named_sha(files.last().1@) {
            Some(sha) => rest.insert(files.last().0@, sha),
            None => rest,
        }
    }
}

impl RefHeads {
    /// Whether no mem stands twice.
    pub open spec fn wf(&self) -> bool {
        mems_once(self.entries@)
    }

    /// No heads.
    pub fn new() -> (r: RefHeads)
        ensures
            r.wf(),
            r@ == Map::<Seq<char>, Seq<char>>::empty(),
    {
        RefHeads { entries: Vec::new() }
    }

    /// Where a mem stands.
    fn position(&self, mem: &str) -> (r: Option<usize>)
        requires
            self.wf(),
        ensures
            match r {
                Some(i) => i < self.entries@.len() && self.entries@[i as int].0@ == mem@
                    && self@.dom().contains(mem@) && self@[mem@] == self.entries@[i as int].1@,
                None => !self@.dom().contains(mem@) && forall|i: int|
                    0 <= i < self.entries@.len() ==> (#[trigger] self.entries@[i]).0@ != mem@,
            },
    {
        proof {
            lemma_head_map(self.entries@, mem@);
        }
        for i in 0..self.entries.len()
            invariant
                forall|k: int| 0 <= k < i ==> (#[trigger] self.entries@[k]).0@ != mem@,
                head_map(self.entries@).dom().contains(mem@) <==> exists|i: int|
                    0 <= i < self.entries@.len() && (#[trigger] self.entries@[i]).0@ == mem@,
                forall|i: int|
                    0 <= i < self.entries@.len() && (#[trigger] self.entries@[i]).0@ == mem@
                        ==> head_map(self.entries@)[mem@] == self.entries@[i].1@,
        {
            if same(&self.entries[i].0, mem) {
                return Some(i);
            }
        }
        None
    }

    /// The head of a mem that was told last.
    pub fn get(&self, mem: &str) -> (r: Option<&String>)
        requires
            self.wf(),
        ensures
            match r {
                Some(sha) => self@.dom().contains(mem@) && self@[mem@] == sha@,
                None => !self@.dom().contains(mem@),
            },
    {
        match self.position(mem) {
            Some(i) => Some(&self.entries[i].1),
            None => None,
        }
    }

    /// Keep a head of a mem in place of the one before.
    pub fn insert(&mut self, mem: &str, sha: &str)
        requires
            old(self).wf(),
        ensures
            final(self).wf(),
            final(self)@ == old(self)@.insert(mem@, sha@),
    {
        let ghost before = self.entries@;
        match self.position(mem) {
            Some(i) => {
                let entry = (own(mem), own(sha));
                self.entries.set(i, entry);
                let ghost now = self.entries@;
                proof {
                    assert(mems_once(now)) by {
                        assert forall|a: int, b: int|
                            #![trigger now[a], now[b]]
                            0 <= a < b < now.len() implies now[a].0@ != now[b].0@ by {
                            assert(now[a].0@ == before[a].0@ && now[b].0@ == before[b].0@);
                        }
                    }
                    let got = head_map(now);
                    let want = head_map(before).insert(mem@, sha@);
                    assert forall|k: Seq<char>|
                        #![trigger got.dom().contains(k)]
                        #![trigger want.dom().contains(k)]
                        #![trigger got[k]]
                        got.dom().contains(k) == want.dom().contains(k) && (got.dom().contains(k)
                            ==> got[k] == want[k]) by {
                        lemma_head_map(now, k);
                        lemma_head_map(before, k);
                        assert(now[i as int].0@ == mem@);
                        if exists|a: int| 0 <= a < now.len() && (#[trigger] now[a]).0@ == k {
                            let a = choose|a: int|
                                0 <= a < now.len() && (#[trigger] now[a]).0@ == k;
                            assert(before[a].0@ == k);
                        }
                        if exists|a: int| 0 <= a < before.len() && (#[trigger] before[a]).0@ == k {
                            let a = choose|a: int|
                                0 <= a < before.len() && (#[trigger] before[a]).0@ == k;
                            assert(now[a].0@ == k);
                        }
                    }
                    assert(got =~= want);
                }
            },
            None => {
                self.entries.push((own(mem), own(sha)));
                assert(self.entries@.drop_last() =~= before);
            },
        }
    }

    /// The heads of branch files as a first look finds them. Nothing is told
    /// of what was there before the watch.
    pub fn scan_initial_state(files: &Vec<(String, String)>) -> (r: RefHeads)
        ensures
            r.wf(),
            r@ == first_heads(files@),
    {
        let mut heads = RefHeads::new();
        for i in 0..files.len()
            invariant
                heads.wf(),
                heads@ == first_heads(files@.take(i as int)),
        {
            assert(files@.take(i + 1).drop_last() =~= files@.take(i as int));
            if let Some(sha) = parse_ref_sha(&files[i].1) {
                heads.insert(&files[i].0, &sha);
            }
        }
        assert(files@.take(files@.len() as int) =~= files@);
        heads
    }

    /// What is told when a branch file was touched: by the mem that it names
    /// and by what it holds, where it is still a file.
    pub fn touch(&mut self, mem: Option<&str>, raw: Option<&str>) -> (r: Option<VaultChangedEvent>)
        requires
            old(self).wf(),
        ensures
            final(self).wf(),
            match (mem, raw) {
                (Some(m), Some(text)) => match named_sha(text@) {
                    Some(sha) => final(self)@ == after_touch(old(self)@, m@, sha) && match told(
                        old(self)@,
                        m@,
                        sha,
                    ) {
                        Some(previous) => r matches Some(e) && e.tells(m@, sha, previous),
                        None => r is None,
                    },
                    None => r is None && *final(self) == *old(self),
                },
                _ => r is None && *final(self) == *old(self),
            },
    {
        let mem = match mem {
            Some(m) => m,
            None => {
                return None;
            },
        };
        let text = match raw {
            Some(t) => t,
            None => {
                return None;
            },
        };
        let sha = match parse_ref_sha(text) {
            Some(s) => s,
            None => {
                return None;
            },
        };
        let previous = match self.get(mem) {
            Some(p) => p.clone(),
            None => {
                proof {
                    reveal_strlit("");
                }
                assert(""@ =~= Seq::<char>::empty());
                own("")
            },
        };
        if same(&previous, &sha) {
            return None;
        }
        self.insert(mem, &sha);
        Some(VaultChangedEvent { vault: own(mem), head: sha, previous, n_commits: 1 })
    }
}

/// Writing the same head again is not told: after a head was seen, seeing it
/// again tells nothing and changes nothing.
pub proof fn law_rewritten_head_is_told_once(
    heads: Map<Seq<char>, Seq<char>>,
    mem: Seq<char>,
    sha: Seq<char>,
)
    requires
        is_sha(sha),
    ensures
        told(after_touch(heads, mem, sha), mem, sha) is None,
        after_touch(after_touch(heads, mem, sha), mem, sha) == after_touch(heads, mem, sha),
{
}

/// What is told of a mem hangs together: each head that is told is the one
/// that the next event of the mem names as previous, whatever other mems did
/// in between.
pub proof fn law_told_heads_hang_together(
    heads: Map<Seq<char>, Seq<char>>,
    mem: Seq<char>,
    first: Seq<char>,
    other: Seq<char>,
    between: Seq<char>,
    second: Seq<char>,
)
    requires
        is_sha(first),
        other != mem,
        first != second,
    ensures
        told(after_touch(after_touch(heads, mem, first), other, between), mem, second) == Some(
            first,
        ),
{
}

/// A mem that was not there at the first look is told with nothing before.
pub proof fn law_new_mem_has_no_previous_head(
    heads: Map<Seq<char>, Seq<char>>,
    mem: Seq<char>,
    sha: Seq<char>,
)
    requires
        !heads.dom().contains(mem),
        is_sha(sha),
    ensures
        told(heads, mem, sha) == Some(Seq::<char>::empty()),
{
}

} // verus!
