//! What holds of trimming, of lines and of what texts begin and end with.

use crate::text::{ends, is_space, number, starts, trim, trim_end, trim_start, without_plus};
use vstd::prelude::*;

verus! {

/// Whether a text is blank.
pub open spec fn is_blank(s: Seq<char>) -> bool {
    forall|i: int| 0 <= i < s.len() ==> is_space(#[trigger] s[i])
}

/// What trimming takes from the front.
proof fn lemma_trim_start(s: Seq<char>) -> (a: Seq<char>)
    ensures
        is_blank(a),
        s == a + trim_start(s),
        trim_start(s).len() > 0 ==> !is_space(trim_start(s)[0]),
    decreases s.len(),
{
    if s.len() > 0 && is_space(s[0]) {
        let b = lemma_trim_start(s.drop_first());
        let a = seq![s[0]] + b;
        assert forall|i: int| 0 <= i < a.len() implies is_space(#[trigger] a[i]) by {
            if i > 0 {
                assert(a[i] == b[i - 1]);
            }
        }
        assert(s =~= seq![s[0]] + s.drop_first());
        assert(a + trim_start(s) =~= seq![s[0]] + (b + trim_start(s)));
        a
    } else {
        assert(s =~= Seq::<char>::empty() + s);
        Seq::empty()
    }
}

/// What trimming takes from the end.
proof fn lemma_trim_end(s: Seq<char>) -> (b: Seq<char>)
    ensures
        is_blank(b),
        s == trim_end(s) + b,
        trim_end(s).len() > 0 ==> !is_space(trim_end(s).last()),
    decreases s.len(),
{
    if s.len() > 0 && is_space(s.last()) {
        let a = lemma_trim_end(s.drop_last());
        let b = a.push(s.last());
        assert forall|i: int| 0 <= i < b.len() implies is_space(#[trigger] b[i]) by {
            if i < a.len() {
                assert(b[i] == a[i]);
            }
        }
        assert(s =~= s.drop_last().push(s.last()));
        assert(trim_end(s) + b =~= (trim_end(s) + a).push(s.last()));
        b
    } else {
        assert(s =~= s + Seq::<char>::empty());
        Seq::empty()
    }
}

/// Trimming takes the blanks at both ends of a text and nothing else.
pub proof fn law_trim_takes_the_blanks_around(s: Seq<char>) -> (ab: (Seq<char>, Seq<char>))
    ensures
        s == ab.0 + trim(s) + ab.1,
        is_blank(ab.0),
        is_blank(ab.1),
        trim(s).len() > 0 ==> !is_space(trim(s)[0]) && !is_space(trim(s).last()),
        trim(s).len() == 0 <==> is_blank(s),
{
    let a = lemma_trim_start(s);
    let t = trim_start(s);
    let b = lemma_trim_end(t);
    assert(s =~= a + trim(s) + b);
    if trim(s).len() > 0 {
        assert(t[0] == trim(s)[0]);
        assert(s[a.len() as int] == t[0]);
        assert(!is_space(s[a.len() as int]));
    } else {
        assert forall|i: int| 0 <= i < s.len() implies is_space(#[trigger] s[i]) by {
            if i < a.len() {
                assert(s[i] == a[i]);
            } else {
                assert(s[i] == b[i - a.len()]);
            }
        }
    }
    (a, b)
}

/// Blanks, tabs and line ends are spaces; letters, digits and dashes are not.
pub proof fn law_spaces_are_no_letters(c: char)
    ensures
        is_space(' ') && is_space('\t') && is_space('\n') && is_space('\r'),
        'a' <= c <= 'z' || 'A' <= c <= 'Z' || '0' <= c <= '9' || c == '-' || c == '_' ==> !is_space(
            c,
        ),
{
}

/// A text begins with what stands first in it and ends with what stands last.
pub proof fn law_texts_begin_and_end(a: Seq<char>, b: Seq<char>, p: Seq<char>)
    ensures
        starts(a + b, a),
        ends(a + b, b),
        starts(b, p) ==> b == p + b.skip(p.len() as int),
        ends(b, p) ==> b == b.take(b.len() - p.len()) + p,
{
    assert((a + b).subrange(0, a.len() as int) =~= a);
    assert((a + b).subrange(a.len() as int, (a.len() + b.len()) as int) =~= b);
    if starts(b, p) {
        assert(b.subrange(0, p.len() as int) =~= p);
        assert(b =~= b.subrange(0, p.len() as int) + b.skip(p.len() as int));
    }
    if ends(b, p) {
        assert(b =~= b.take(b.len() - p.len()) + b.subrange(b.len() - p.len(), b.len() as int));
    }
}

/// What is no row of digits, with or without a plus in front, is no number.
pub proof fn law_numbers_are_digits(s: Seq<char>, max: nat)
    ensures
        number(s, max) matches Some(n) ==> n <= max,
        number(Seq::empty(), max) is None,
        (exists|i: int| 0 < i < s.len() && !('0' <= #[trigger] s[i] <= '9')) ==> number(s, max)
            is None,
        s.len() > 0 && !('0' <= s[0] <= '9') && s[0] != '+' ==> number(s, max) is None,
{
    let body = without_plus(s);
    if s.len() > 0 {
        if exists|i: int| 0 < i < s.len() && !('0' <= #[trigger] s[i] <= '9') {
            let i = choose|i: int| 0 < i < s.len() && !('0' <= #[trigger] s[i] <= '9');
            if s[0] == '+' {
                assert(body[i - 1] == s[i]);
            } else {
                assert(body[i] == s[i]);
            }
        }
        if s[0] != '+' {
            assert(body[0] == s[0]);
        }
    }
}

} // verus!
