//! Schema versions: texts in the form of semantic versioning, ordered as
//! `semver` orders them and never as strings.

use crate::text::own;
use vstd::prelude::*;

verus! {

/// How one version stands to another.
#[derive(Debug, Clone, Copy, PartialEq, Eq, Structural)]
pub enum Order {
    Before,
    Same,
    After,
}

/// The order of two versions given by their texts; nothing where one of them
/// is no version.
pub uninterp spec fn semver_order(a: Seq<char>, b: Seq<char>) -> Option<Order>;

/// `semver::Version`'s total order, on the versions that `Version::parse`
/// reads from the two texts. The order is antisymmetric and transitive: it
/// compares major, minor, patch, pre-release and build metadata in turn.
#[verifier::external_body]
pub(crate) fn version_order(a: &str, b: &str) -> (r: Option<Order>)
    ensures
        r == semver_order(a@, b@),
        r == Some(Order::Before) ==> semver_order(b@, a@) == Some(Order::After),
        r == Some(Order::After) ==> semver_order(b@, a@) == Some(Order::Before),
        r == Some(Order::Before) ==> (forall|c: Seq<char>| #[trigger]
            semver_order(b@, c) == Some(Order::Before) ==> semver_order(a@, c) == Some(
                Order::Before,
            )),
{
    match (semver::Version::parse(a), semver::Version::parse(b)) {
        (Ok(x), Ok(y)) => match x.cmp(&y) {
            core::cmp::Ordering::Less => Some(Order::Before),
            core::cmp::Ordering::Equal => Some(Order::Same),
            core::cmp::Ordering::Greater => Some(Order::After),
        },
        _ => None,
    }
}

/// The precedence of two versions given by their texts, build metadata left
/// aside; nothing where one of them is no version.
pub uninterp spec fn semver_precedence(a: Seq<char>, b: Seq<char>) -> Option<Order>;

/// `semver::Version::cmp_precedence`, on the versions that `Version::parse`
/// reads from the two texts.
#[verifier::external_body]
pub(crate) fn version_precedence(a: &str, b: &str) -> (r: Option<Order>)
    ensures
        r == semver_precedence(a@, b@),
{
    match (semver::Version::parse(a), semver::Version::parse(b)) {
        (Ok(x), Ok(y)) => match x.cmp_precedence(&y) {
            core::cmp::Ordering::Less => Some(Order::Before),
            core::cmp::Ordering::Equal => Some(Order::Same),
            core::cmp::Ordering::Greater => Some(Order::After),
        },
        _ => None,
    }
}

/// Whether version `a` stands before version `b`.
pub open spec fn older(a: Seq<char>, b: Seq<char>) -> bool {
    semver_order(a, b) == Some(Order::Before)
}

/// The newest of a list of versions: the last that no earlier one beats.
pub open spec fn newest(versions: Seq<Seq<char>>) -> Option<Seq<char>>
    decreases versions.len(),
{
    if versions.len() == 0 {
        None
    } else {
        match newest(versions.drop_last()) {
            None => Some(versions.last()),
            Some(best) => if older(best, versions.last()) {
                Some(versions.last())
            } else {
                Some(best)
            },
        }
    }
}

/// `s` with `v` at the place where the order puts it; `s` itself where it
/// holds `v` already.
pub open spec fn insert_version(s: Seq<Seq<char>>, v: Seq<char>) -> Seq<Seq<char>> {
    if s.contains(v) {
        s
    } else {
        s.insert(place(s, v, 0), v)
    }
}

/// The first position from `i` on whose version is newer than `v`.
pub open spec fn place(s: Seq<Seq<char>>, v: Seq<char>, i: int) -> int
    decreases s.len() - i,
{
    if i < 0 || i >= s.len() {
        s.len() as int
    } else if older(v, s[i]) {
        i
    } else {
        place(s, v, i + 1)
    }
}

/// The versions of a list, each once, in ascending order.
pub open spec fn ascending(versions: Seq<Seq<char>>) -> Seq<Seq<char>>
    decreases versions.len(),
{
    if versions.len() == 0 {
        Seq::empty()
    } else {
        insert_version(ascending(versions.drop_last()), versions.last())
    }
}

/// What a sorted list of versions holds is what it was made from.
pub proof fn law_ascending_keeps(versions: Seq<Seq<char>>, v: Seq<char>)
    ensures
        ascending(versions).contains(v) == versions.contains(v),
    decreases versions.len(),
{
    if versions.len() > 0 {
        let head = versions.drop_last();
        let w = versions.last();
        let s = ascending(head);
        law_ascending_keeps(head, v);
        lemma_place(s, w, 0);
        assert(versions =~= head.push(w));
        let k = place(s, w, 0);
        if versions.contains(v) {
            let i = choose|i: int| 0 <= i < versions.len() && versions[i] == v;
            if i < head.len() {
                assert(head[i] == v);
            }
        }
        if head.contains(v) {
            let i = choose|i: int| 0 <= i < head.len() && head[i] == v;
            assert(versions[i] == v);
        }
        assert(versions[versions.len() - 1] == w);
        if !s.contains(w) {
            let t = s.insert(k, w);
            assert(t[k] == w);
            if s.contains(v) {
                let j = choose|j: int| 0 <= j < s.len() && s[j] == v;
                assert(t[if j < k {
                    j
                } else {
                    j + 1
                }] == v);
            }
            if t.contains(v) {
                let j = choose|j: int| 0 <= j < t.len() && t[j] == v;
                if j < k {
                    assert(s[j] == v);
                } else if j > k {
                    assert(s[j - 1] == v);
                }
            }
        }
    }
}

/// The place found lies in the list or right behind it.
proof fn lemma_place(s: Seq<Seq<char>>, v: Seq<char>, i: int)
    requires
        0 <= i <= s.len(),
    ensures
        i <= place(s, v, i) <= s.len(),
    decreases s.len() - i,
{
    if i < s.len() && !older(v, s[i]) {
        lemma_place(s, v, i + 1);
    }
}

/// Put `v` into an ascending list of versions.
pub(crate) fn add_version(list: &mut Vec<String>, v: &str)
    ensures
        crate::text::texts(final(list)@) == insert_version(crate::text::texts(old(list)@), v@),
{
    if crate::text::listed(list, v) {
        return;
    }
    let ghost s = crate::text::texts(list@);
    let mut i: usize = 0;
    while i < list.len()
        invariant
            i <= list@.len(),
            s == crate::text::texts(list@),
            place(s, v@, 0) == place(s, v@, i as int),
        ensures
            i <= list@.len(),
            place(s, v@, 0) == i,
        decreases list@.len() - i,
    {
        if version_order(v, &list[i]) == Some(Order::Before) {
            break;
        }
        i = i + 1;
    }
    list.insert(i, own(v));
    assert(crate::text::texts(list@) =~= s.insert(i as int, v@));
}

} // verus!
