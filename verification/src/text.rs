//! Text as sequences of characters: the searching, splitting, trimming,
//! ordering and number forms that the rest of the crate is written in.

use vstd::prelude::*;

verus! {

/// `String::push` appends one character.
pub assume_specification[ std::string::String::push ](s: &mut std::string::String, c: char)
    ensures
        final(s)@ == old(s)@.push(c),
;

/// The `Debug` form of a text, quotes and escapes included.
pub uninterp spec fn debug_form(s: Seq<char>) -> Seq<char>;

/// `<str as Debug>::fmt`, through `format!`: the quoted and escaped form of
/// `s`. Which characters are escaped is left to the name `debug_form`.
#[verifier::external_body]
pub(crate) fn debug_quoted(s: &str) -> (r: String)
    ensures
        r@ == debug_form(s@),
{
    format!("{:?}", s)
}

// ---------------------------------------------------------------------
// Lists of texts
// ---------------------------------------------------------------------

/// The texts that a list of strings holds.
pub open spec fn texts(v: Seq<String>) -> Seq<Seq<char>> {
    v.map_values(|s: String| s@)
}

/// `parts` with `sep` between neighbours.
pub open spec fn join(parts: Seq<Seq<char>>, sep: Seq<char>) -> Seq<char>
    decreases parts.len(),
{
    if parts.len() == 0 {
        Seq::empty()
    } else if parts.len() == 1 {
        parts[0]
    } else {
        join(parts.drop_last(), sep) + sep + parts.last()
    }
}

/// The characters of `s`, in order.
pub fn chars_of(s: &str) -> (r: Vec<char>)
    ensures
        r@ == s@,
{
    let mut out: Vec<char> = Vec::new();
    for c in it: s.chars()
        invariant
            out@ == it.seq().take(it.index()),
            it.seq() == s@,
    {
        out.push(c);
    }
    out
}

/// The characters `from..to` of `chars` as a string.
pub fn slice_of(chars: &Vec<char>, from: usize, to: usize) -> (r: String)
    requires
        from <= to <= chars@.len(),
    ensures
        r@ == chars@.subrange(from as int, to as int),
{
    let mut out = String::new();
    let mut i: usize = from;
    while i < to
        invariant
            from <= i <= to <= chars@.len(),
            out@ == chars@.subrange(from as int, i as int),
        decreases to - i,
    {
        out.push(chars[i]);
        i = i + 1;
    }
    out
}

/// A copy of `s`.
pub fn own(s: &str) -> (r: String)
    ensures
        r@ == s@,
{
    s.to_owned()
}

/// A copy of an optional text.
pub fn own_opt(s: &Option<String>) -> (r: Option<String>)
    ensures
        r == *s,
{
    match s {
        Some(t) => Some(t.clone()),
        None => None,
    }
}

/// A copy of a list of strings.
pub fn own_list(v: &Vec<String>) -> (r: Vec<String>)
    ensures
        r@ == v@,
{
    let mut out: Vec<String> = Vec::new();
    for i in 0..v.len()
        invariant
            out@ == v@.take(i as int),
    {
        out.push(v[i].clone());
    }
    out
}

/// Whether two texts are the same.
pub fn same(a: &str, b: &str) -> (r: bool)
    ensures
        r == (a@ == b@),
{
    let x = chars_of(a);
    let y = chars_of(b);
    if x.len() != y.len() {
        return false;
    }
    for i in 0..x.len()
        invariant
            x@ == a@,
            y@ == b@,
            x@.len() == y@.len(),
            forall|j: int| 0 <= j < i ==> x@[j] == y@[j],
    {
        if x[i] != y[i] {
            return false;
        }
    }
    assert(a@ =~= b@);
    true
}

/// The text of an optional string.
pub open spec fn opt_text(s: Option<String>) -> Option<Seq<char>> {
    match s {
        Some(t) => Some(t@),
        None => None,
    }
}

/// The text of an optional string slice.
pub open spec fn opt_str(s: Option<&str>) -> Option<Seq<char>> {
    match s {
        Some(t) => Some(t@),
        None => None,
    }
}

/// Whether two optional texts are the same.
pub fn same_opt(a: &Option<String>, b: &Option<String>) -> (r: bool)
    ensures
        r == (opt_text(*a) == opt_text(*b)),
{
    match (a, b) {
        (Some(x), Some(y)) => same(x, y),
        (None, None) => true,
        _ => false,
    }
}

/// Whether `s` stands in `list`.
pub fn listed(list: &Vec<String>, s: &str) -> (r: bool)
    ensures
        r == texts(list@).contains(s@),
{
    for i in 0..list.len()
        invariant
            forall|j: int| 0 <= j < i ==> texts(list@)[j] != s@,
    {
        if same(&list[i], s) {
            assert(texts(list@)[i as int] == s@);
            return true;
        }
    }
    false
}

/// `parts` with `sep` between neighbours, as a string.
pub fn join_list(parts: &Vec<String>, sep: &str) -> (r: String)
    ensures
        r@ == join(texts(parts@), sep@),
{
    let mut out = String::new();
    for i in 0..parts.len()
        invariant
            out@ == join(texts(parts@).take(i as int), sep@),
    {
        if i > 0 {
            out.append(sep);
        }
        out.append(&parts[i]);
        proof {
            let t = texts(parts@);
            assert(t.take(i + 1).drop_last() =~= t.take(i as int));
            if i == 0 {
                assert(out@ =~= parts@[0]@);
            }
        }
    }
    assert(texts(parts@).take(parts@.len() as int) =~= texts(parts@));
    out
}

// ---------------------------------------------------------------------
// Order
// ---------------------------------------------------------------------

/// Whether `a` stands before `b` in the order of code points.
pub open spec fn lex_less(a: Seq<char>, b: Seq<char>) -> bool
    decreases a.len(),
{
    if b.len() == 0 {
        false
    } else if a.len() == 0 {
        true
    } else if a[0] != b[0] {
        (a[0] as int) < (b[0] as int)
    } else {
        lex_less(a.drop_first(), b.drop_first())
    }
}

/// Whether `a` stands before `b` in the order of code points.
pub fn before(a: &str, b: &str) -> (r: bool)
    ensures
        r == lex_less(a@, b@),
{
    let x = chars_of(a);
    let y = chars_of(b);
    let mut i: usize = 0;
    assert(x@.skip(0) =~= x@);
    assert(y@.skip(0) =~= y@);
    while i < x.len() && i < y.len()
        invariant
            i <= x@.len(),
            i <= y@.len(),
            x@ == a@,
            y@ == b@,
            lex_less(a@, b@) == lex_less(x@.skip(i as int), y@.skip(i as int)),
        decreases x@.len() - i,
    {
        if x[i] != y[i] {
            proof {
                assert(x@.skip(i as int)[0] == x@[i as int]);
                assert(y@.skip(i as int)[0] == y@[i as int]);
            }
            return x[i] < y[i];
        }
        proof {
            assert(x@.skip(i as int).drop_first() =~= x@.skip(i + 1));
            assert(y@.skip(i as int).drop_first() =~= y@.skip(i + 1));
        }
        i = i + 1;
    }
    i < y.len()
}

/// No text stands before itself.
pub proof fn lemma_lex_irreflexive(a: Seq<char>)
    ensures
        !lex_less(a, a),
    decreases a.len(),
{
    if a.len() > 0 {
        lemma_lex_irreflexive(a.drop_first());
    }
}

/// The order of texts is transitive.
pub proof fn lemma_lex_transitive(a: Seq<char>, b: Seq<char>, c: Seq<char>)
    requires
        lex_less(a, b),
        lex_less(b, c),
    ensures
        lex_less(a, c),
    decreases a.len(),
{
    if a.len() > 0 && b.len() > 0 && c.len() > 0 && a[0] == b[0] && b[0] == c[0] {
        lemma_lex_transitive(a.drop_first(), b.drop_first(), c.drop_first());
    }
}

/// Of two different texts one stands before the other.
pub proof fn lemma_lex_total(a: Seq<char>, b: Seq<char>)
    ensures
        lex_less(a, b) || lex_less(b, a) || a == b,
    decreases a.len(),
{
    if a.len() > 0 && b.len() > 0 {
        if a[0] == b[0] {
            lemma_lex_total(a.drop_first(), b.drop_first());
            if a.drop_first() == b.drop_first() {
                assert(a =~= seq![a[0]] + a.drop_first());
                assert(b =~= seq![b[0]] + b.drop_first());
            }
        }
    } else if a.len() == 0 && b.len() == 0 {
        assert(a =~= b);
    }
}

// ---------------------------------------------------------------------
// Searching
// ---------------------------------------------------------------------

/// Whether `p` stands in `s` at position `i`.
pub open spec fn occurs_at(s: Seq<char>, p: Seq<char>, i: int) -> bool {
    0 <= i && i + p.len() <= s.len() && s.subrange(i, i + p.len()) == p
}

/// The first position at or after `from` at which `p` stands in `s`.
pub open spec fn find(s: Seq<char>, p: Seq<char>, from: int) -> Option<int>
    decreases s.len() + 1 - from,
{
    if from < 0 || from + p.len() > s.len() {
        None
    } else if occurs_at(s, p, from) {
        Some(from)
    } else {
        find(s, p, from + 1)
    }
}

/// Whether `p` stands somewhere in `s`.
pub open spec fn contains(s: Seq<char>, p: Seq<char>) -> bool {
    find(s, p, 0) is Some
}

/// What `find` gives is the first position from `from` on, and nothing else.
pub proof fn lemma_find(s: Seq<char>, p: Seq<char>, from: int)
    requires
        0 <= from,
    ensures
        find(s, p, from) matches Some(i) ==> from <= i && occurs_at(s, p, i) && (forall|j: int|
            from <= j < i ==> !occurs_at(s, p, j)),
        find(s, p, from) is None ==> (forall|j: int| from <= j ==> !occurs_at(s, p, j)),
    decreases s.len() + 1 - from,
{
    if from + p.len() <= s.len() && !occurs_at(s, p, from) {
        lemma_find(s, p, from + 1);
    }
}

/// Whether `p` stands in `s` at position `i`.
pub fn stands_at(s: &Vec<char>, p: &Vec<char>, i: usize) -> (r: bool)
    requires
        i <= s@.len(),
    ensures
        r == occurs_at(s@, p@, i as int),
{
    if p.len() > s.len() - i {
        return false;
    }
    let n: usize = s.len();
    for j in 0..p.len()
        invariant
            i + p@.len() <= s@.len() == n,
            forall|k: int| 0 <= k < j ==> s@[i + k] == p@[k],
    {
        if s[i + j] != p[j] {
            assert(s@.subrange(i as int, i + p@.len())[j as int] != p@[j as int]);
            return false;
        }
    }
    assert(s@.subrange(i as int, i + p@.len()) =~= p@);
    true
}

/// The first position at or after `from` at which `p` stands in `s`.
pub fn find_chars(s: &Vec<char>, p: &Vec<char>, from: usize) -> (r: Option<usize>)
    requires
        from <= s@.len(),
    ensures
        match r {
            Some(i) => find(s@, p@, from as int) == Some(i as int),
            None => find(s@, p@, from as int) is None,
        },
        r matches Some(i) ==> from <= i && i + p@.len() <= s@.len(),
{
    let mut i: usize = from;
    while p.len() <= s.len() - i && i < s.len()
        invariant
            from <= i <= s@.len(),
            find(s@, p@, from as int) == find(s@, p@, i as int),
        decreases s@.len() - i,
    {
        if stands_at(s, p, i) {
            return Some(i);
        }
        i = i + 1;
    }
    if p.len() == 0 {
        assert(s@.subrange(i as int, i as int) =~= p@);
        return Some(i);
    }
    None
}

/// Whether `p` stands somewhere in `s`.
pub fn holds(s: &str, p: &str) -> (r: bool)
    ensures
        r == contains(s@, p@),
{
    find_chars(&chars_of(s), &chars_of(p), 0).is_some()
}

/// Whether `s` starts with `p`.
pub open spec fn starts(s: Seq<char>, p: Seq<char>) -> bool {
    occurs_at(s, p, 0)
}

/// Whether `s` ends with `p`.
pub open spec fn ends(s: Seq<char>, p: Seq<char>) -> bool {
    occurs_at(s, p, s.len() - p.len())
}

/// Whether `s` starts with `p`.
pub fn begins(s: &str, p: &str) -> (r: bool)
    ensures
        r == starts(s@, p@),
{
    stands_at(&chars_of(s), &chars_of(p), 0)
}

/// What follows the prefix `p`, where `s` starts with it.
pub open spec fn after_prefix(s: Seq<char>, p: Seq<char>) -> Option<Seq<char>> {
    if starts(s, p) {
        Some(s.skip(p.len() as int))
    } else {
        None
    }
}

/// What follows the prefix `p`, where `s` starts with it.
pub fn strip_prefix(s: &str, p: &str) -> (r: Option<String>)
    ensures
        opt_text(r) == after_prefix(s@, p@),
{
    let x = chars_of(s);
    let y = chars_of(p);
    if stands_at(&x, &y, 0) {
        let rest = slice_of(&x, y.len(), x.len());
        assert(rest@ =~= s@.skip(p@.len() as int));
        Some(rest)
    } else {
        None
    }
}

/// What is left when `p` is taken off the front as often as it stands there.
pub open spec fn strip_all(s: Seq<char>, p: Seq<char>) -> Seq<char>
    decreases s.len(),
{
    if p.len() > 0 && starts(s, p) {
        strip_all(s.skip(p.len() as int), p)
    } else {
        s
    }
}

/// What is left when `p` is taken off the front as often as it stands there.
pub fn strip_repeated(s: &str, p: &str) -> (r: String)
    ensures
        r@ == strip_all(s@, p@),
{
    let x = chars_of(s);
    let y = chars_of(p);
    let n: usize = x.len();
    let mut i: usize = 0;
    assert(x@.skip(0) =~= s@);
    while y.len() > 0 && stands_at(&x, &y, i)
        invariant
            i <= x@.len() == n,
            y@ == p@,
            strip_all(s@, p@) == strip_all(x@.skip(i as int), p@),
        decreases x@.len() - i,
    {
        proof {
            lemma_skip_start(x@, p@, i as int);
            assert(x@.skip(i as int).skip(p@.len() as int) =~= x@.skip(i + p@.len()));
        }
        i = i + y.len();
    }
    proof {
        lemma_skip_start(x@, p@, i as int);
    }
    let r = slice_of(&x, i, x.len());
    assert(r@ =~= x@.skip(i as int));
    r
}

/// `p` stands at `i` exactly where what follows `i` starts with it.
proof fn lemma_skip_start(s: Seq<char>, p: Seq<char>, i: int)
    requires
        0 <= i <= s.len(),
    ensures
        starts(s.skip(i), p) == occurs_at(s, p, i),
{
    if i + p.len() <= s.len() {
        assert(s.skip(i).subrange(0, p.len() as int) =~= s.subrange(i, i + p.len()));
    }
}

// ---------------------------------------------------------------------
// Lines
// ---------------------------------------------------------------------

/// The position of the first `c` at or after `from`, or the end of `s`.
pub open spec fn next_char(s: Seq<char>, c: char, from: int) -> int
    decreases s.len() - from,
{
    if from < 0 || from >= s.len() {
        s.len() as int
    } else if s[from] == c {
        from
    } else {
        next_char(s, c, from + 1)
    }
}

/// Between `from` and the position found there is no `c`, and it is the first.
pub proof fn lemma_next_char(s: Seq<char>, c: char, from: int)
    requires
        0 <= from <= s.len(),
    ensures
        from <= next_char(s, c, from) <= s.len(),
        forall|j: int| from <= j < next_char(s, c, from) ==> s[j] != c,
        next_char(s, c, from) < s.len() ==> s[next_char(s, c, from)] == c,
    decreases s.len() - from,
{
    if from < s.len() && s[from] != c {
        lemma_next_char(s, c, from + 1);
    }
}

/// The position of the first `c` at or after `from`, or the end of `s`.
pub fn next_of(s: &Vec<char>, c: char, from: usize) -> (r: usize)
    requires
        from <= s@.len(),
    ensures
        r == next_char(s@, c, from as int),
        from <= r <= s@.len(),
        forall|j: int| from <= j < r ==> s@[j] != c,
        r < s@.len() ==> s@[r as int] == c,
{
    let mut i: usize = from;
    while i < s.len()
        invariant
            from <= i <= s@.len(),
            next_char(s@, c, from as int) == next_char(s@, c, i as int),
            forall|j: int| from <= j < i ==> s@[j] != c,
        decreases s@.len() - i,
    {
        if s[i] == c {
            return i;
        }
        i = i + 1;
    }
    i
}

/// `s` without one carriage return at its end.
pub open spec fn chomp(s: Seq<char>) -> Seq<char> {
    if s.len() > 0 && s.last() == '\r' {
        s.drop_last()
    } else {
        s
    }
}

/// The lines of what follows position `from`: each ends before a line feed,
/// a carriage return right before that line feed belongs to neither, and
/// nothing follows a line feed that ends the text.
pub open spec fn lines_from(s: Seq<char>, from: int) -> Seq<Seq<char>>
    decreases s.len() - from,
{
    if from < 0 || from >= s.len() {
        Seq::empty()
    } else {
        let end = next_char(s, '\n', from);
        if from <= end < s.len() {
            seq![chomp(s.subrange(from, end))] + lines_from(s, end + 1)
        } else {
            seq![s.subrange(from, s.len() as int)]
        }
    }
}

/// The lines of a text.
pub open spec fn lines(s: Seq<char>) -> Seq<Seq<char>> {
    lines_from(s, 0)
}

/// The lines of a text.
pub fn lines_of(s: &str) -> (r: Vec<String>)
    ensures
        texts(r@) == lines(s@),
{
    let x = chars_of(s);
    let mut out: Vec<String> = Vec::new();
    let mut from: usize = 0;
    while from < x.len()
        invariant
            from <= x@.len(),
            x@ == s@,
            lines(s@) == texts(out@) + lines_from(x@, from as int),
        decreases x@.len() - from,
    {
        let end = next_of(&x, '\n', from);
        let ghost done = texts(out@);
        if end < x.len() {
            let stop: usize = if end > from && x[end - 1] == '\r' {
                end - 1
            } else {
                end
            };
            let line = slice_of(&x, from, stop);
            assert(line@ =~= chomp(x@.subrange(from as int, end as int)));
            out.push(line);
            assert(texts(out@) =~= done.push(line@));
            assert(done + lines_from(x@, from as int) =~= texts(out@) + lines_from(x@, end + 1));
            from = end + 1;
        } else {
            let line = slice_of(&x, from, x.len());
            out.push(line);
            assert(texts(out@) =~= done.push(line@));
            assert(done + lines_from(x@, from as int) =~= texts(out@));
            from = x.len();
            assert(lines_from(x@, from as int) =~= Seq::<Seq<char>>::empty());
        }
    }
    assert(texts(out@) + lines_from(x@, from as int) =~= texts(out@));
    out
}

// ---------------------------------------------------------------------
// White space
// ---------------------------------------------------------------------

/// Unicode white space.
pub open spec fn is_space(c: char) -> bool {
    let u = c as u32;
    ||| 0x09 <= u <= 0x0d
    ||| u == 0x20
    ||| u == 0x85
    ||| u == 0xa0
    ||| u == 0x1680
    ||| 0x2000 <= u <= 0x200a
    ||| u == 0x2028
    ||| u == 0x2029
    ||| u == 0x202f
    ||| u == 0x205f
    ||| u == 0x3000
}

/// Whether `c` is Unicode white space.
pub fn blank(c: char) -> (r: bool)
    ensures
        r == is_space(c),
{
    let u: u32 = c as u32;
    (0x09 <= u && u <= 0x0d) || u == 0x20 || u == 0x85 || u == 0xa0 || u == 0x1680 || (0x2000 <= u
        && u <= 0x200a) || u == 0x2028 || u == 0x2029 || u == 0x202f || u == 0x205f || u == 0x3000
}

/// `s` without the white space at its start.
pub open spec fn trim_start(s: Seq<char>) -> Seq<char>
    decreases s.len(),
{
    if s.len() > 0 && is_space(s[0]) {
        trim_start(s.drop_first())
    } else {
        s
    }
}

/// `s` without the white space at its end.
pub open spec fn trim_end(s: Seq<char>) -> Seq<char>
    decreases s.len(),
{
    if s.len() > 0 && is_space(s.last()) {
        trim_end(s.drop_last())
    } else {
        s
    }
}

/// `s` without the white space at its two ends.
pub open spec fn trim(s: Seq<char>) -> Seq<char> {
    trim_end(trim_start(s))
}

/// `s` without the white space at its two ends.
pub fn trimmed(s: &str) -> (r: String)
    ensures
        r@ == trim(s@),
{
    let x = chars_of(s);
    let mut from: usize = 0;
    assert(x@.skip(0) =~= s@);
    while from < x.len() && blank(x[from])
        invariant
            from <= x@.len(),
            trim_start(s@) == trim_start(x@.skip(from as int)),
        decreases x@.len() - from,
    {
        assert(x@.skip(from as int).drop_first() =~= x@.skip(from + 1));
        from = from + 1;
    }
    let mut to: usize = x.len();
    assert(x@.subrange(from as int, to as int) =~= x@.skip(from as int));
    while to > from && blank(x[to - 1])
        invariant
            from <= to <= x@.len(),
            trim(s@) == trim_end(x@.subrange(from as int, to as int)),
        decreases to,
    {
        assert(x@.subrange(from as int, to as int).drop_last() =~= x@.subrange(
            from as int,
            to - 1,
        ));
        to = to - 1;
    }
    slice_of(&x, from, to)
}

// ---------------------------------------------------------------------
// Numbers
// ---------------------------------------------------------------------

/// The digit that stands for `d`, for `d` under ten.
pub open spec fn digit(d: nat) -> char {
    ('0' as u32 + d) as char
}

/// The decimal form of `n`.
pub open spec fn decimal(n: nat) -> Seq<char>
    decreases n,
{
    if n < 10 {
        seq![digit(n)]
    } else {
        decimal(n / 10).push(digit(n % 10))
    }
}

/// The character that stands for `d`.
fn digit_char(d: u8) -> (r: char)
    requires
        d < 10,
    ensures
        r == digit(d as nat),
{
    (48u8 + d) as char
}

/// The decimal form of `n`.
pub fn decimal_of(n: u64) -> (r: String)
    ensures
        r@ == decimal(n as nat),
    decreases n,
{
    if n < 10 {
        let mut out = String::new();
        out.push(digit_char(n as u8));
        assert(out@ =~= decimal(n as nat));
        out
    } else {
        let mut out = decimal_of(n / 10);
        out.push(digit_char((n % 10) as u8));
        out
    }
}

/// `s` with zeros in front of it up to `width` characters.
pub open spec fn pad_zeros(s: Seq<char>, width: nat) -> Seq<char>
    decreases width - s.len(),
{
    if s.len() >= width {
        s
    } else {
        pad_zeros(seq!['0'] + s, width)
    }
}

/// The decimal form of `n` with zeros in front up to `width` characters.
pub fn padded(n: u64, width: usize) -> (r: String)
    ensures
        r@ == pad_zeros(decimal(n as nat), width as nat),
{
    let digits = decimal_of(n);
    let len: usize = digits.as_str().unicode_len();
    let mut out = String::new();
    let mut i: usize = len;
    assert(out@ + digits@ =~= digits@);
    while i < width
        invariant
            len <= i,
            i <= width || i == len,
            digits@.len() == len,
            out@.len() == i - len,
            forall|j: int| 0 <= j < out@.len() ==> out@[j] == '0',
            pad_zeros(digits@, width as nat) == pad_zeros(out@ + digits@, width as nat),
        decreases width - i,
    {
        let ghost before_push = out@;
        out.push('0');
        assert(out@ + digits@ =~= seq!['0'] + (before_push + digits@));
        i = i + 1;
    }
    out.append(&digits);
    out
}

/// Whether `c` is an ASCII digit.
pub open spec fn is_digit(c: char) -> bool {
    '0' <= c <= '9'
}

/// The number that a sequence of ASCII digits writes.
pub open spec fn digits_value(s: Seq<char>) -> nat
    decreases s.len(),
{
    if s.len() == 0 {
        0
    } else {
        digits_value(s.drop_last()) * 10 + (s.last() as u32 - '0' as u32) as nat
    }
}

/// Whether `s` is made of ASCII digits, at least one.
pub open spec fn all_digits(s: Seq<char>) -> bool {
    s.len() > 0 && forall|i: int| 0 <= i < s.len() ==> is_digit(#[trigger] s[i])
}

/// `s` without one sign `+` at its start.
pub open spec fn without_plus(s: Seq<char>) -> Seq<char> {
    if s.len() > 0 && s[0] == '+' {
        s.drop_first()
    } else {
        s
    }
}

/// The number that `s` writes: one sign `+` or none, then digits alone, at
/// least one, with a value of at most `max`.
pub open spec fn number(s: Seq<char>, max: nat) -> Option<nat> {
    let body = without_plus(s);
    if all_digits(body) && digits_value(body) <= max {
        Some(digits_value(body))
    } else {
        None
    }
}

/// More digits write no smaller a number.
proof fn lemma_digits_grow(s: Seq<char>, i: int)
    requires
        0 <= i <= s.len(),
        forall|j: int| 0 <= j < s.len() ==> is_digit(#[trigger] s[j]),
    ensures
        digits_value(s.take(i)) <= digits_value(s),
    decreases s.len(),
{
    if i == s.len() {
        assert(s.take(i) =~= s);
    } else {
        lemma_digits_grow(s.drop_last(), i);
        assert(s.drop_last().take(i) =~= s.take(i));
    }
}

/// The number that `s` writes, up to `max`.
pub fn parse_number(s: &str, max: u64) -> (r: Option<u64>)
    ensures
        match r {
            Some(n) => number(s@, max as nat) == Some(n as nat),
            None => number(s@, max as nat) is None,
        },
{
    let x = chars_of(s);
    let start: usize = if x.len() > 0 && x[0] == '+' {
        1
    } else {
        0
    };
    let ghost body = without_plus(s@);
    assert(body =~= x@.skip(start as int));
    if start == x.len() {
        return None;
    }
    for i in start..x.len()
        invariant
            start <= x@.len(),
            body == x@.skip(start as int),
            body == without_plus(s@),
            forall|j: int| 0 <= j < i - start ==> is_digit(#[trigger] body[j]),
    {
        if !('0' <= x[i] && x[i] <= '9') {
            assert(0 <= i - start < body.len());
            assert(!is_digit(body[i - start]));
            return None;
        }
        assert(body[i - start] == x@[i as int]);
    }
    assert forall|j: int| 0 <= j < body.len() implies is_digit(#[trigger] body[j]) by {}
    let mut n: u64 = 0;
    let mut i: usize = start;
    assert(body.take(0) =~= Seq::<char>::empty());
    while i < x.len()
        invariant
            start <= i <= x@.len(),
            body == x@.skip(start as int),
            forall|j: int| 0 <= j < body.len() ==> is_digit(#[trigger] body[j]),
            n as nat == digits_value(body.take(i - start)),
            n <= max,
            body.len() > 0,
            body == without_plus(s@),
        decreases x@.len() - i,
    {
        assert(is_digit(body[i - start]));
        let d: u64 = (x[i] as u32 - 48) as u64;
        proof {
            assert(body.take(i - start + 1).drop_last() =~= body.take(i - start));
            lemma_digits_grow(body, i - start + 1);
        }
        if n > max / 10 || d > max || n * 10 > max - d {
            proof {
                assert(digits_value(body.take(i - start + 1)) > max);
            }
            return None;
        }
        n = n * 10 + d;
        i = i + 1;
    }
    assert(body.take(x@.len() - start) =~= body);
    Some(n)
}

// ---------------------------------------------------------------------
// UTF-8 lengths
// ---------------------------------------------------------------------

/// How many bytes the UTF-8 form of `c` takes.
pub open spec fn width(c: char) -> nat {
    let u = c as u32;
    if u < 0x80 {
        1
    } else if u < 0x800 {
        2
    } else if u < 0x10000 {
        3
    } else {
        4
    }
}

/// How many bytes the UTF-8 form of `c` takes.
pub fn width_of(c: char) -> (r: usize)
    ensures
        r == width(c),
        1 <= r <= 4,
{
    let u: u32 = c as u32;
    if u < 0x80 {
        1
    } else if u < 0x800 {
        2
    } else if u < 0x10000 {
        3
    } else {
        4
    }
}

/// How many bytes the UTF-8 form of `s` takes.
pub open spec fn byte_len(s: Seq<char>) -> nat
    decreases s.len(),
{
    if s.len() == 0 {
        0
    } else {
        byte_len(s.drop_last()) + width(s.last())
    }
}

/// The characters of `s` that fill its first `n` bytes exactly, where there
/// are such; all of `s` otherwise.
pub open spec fn byte_prefix(s: Seq<char>, n: nat) -> Seq<char> {
    if exists|k: int| 0 <= k <= s.len() && byte_len(#[trigger] s.take(k)) == n {
        s.take(choose|k: int| 0 <= k <= s.len() && byte_len(#[trigger] s.take(k)) == n)
    } else {
        s
    }
}

/// A longer prefix takes more bytes.
pub proof fn lemma_byte_len_grows(s: Seq<char>, i: int, j: int)
    requires
        0 <= i < j <= s.len(),
    ensures
        byte_len(s.take(i)) < byte_len(s.take(j)),
    decreases j - i,
{
    assert(s.take(j).drop_last() =~= s.take(j - 1));
    if i < j - 1 {
        lemma_byte_len_grows(s, i, j - 1);
    }
}

/// The characters of `s` that fill its first `n` bytes exactly, where there
/// are such; all of `s` otherwise.
pub fn byte_prefix_of(s: &str, n: usize) -> (r: String)
    requires
        n < usize::MAX - 4,
    ensures
        r@ == byte_prefix(s@, n as nat),
{
    let x = chars_of(s);
    let mut k: usize = 0;
    let mut used: usize = 0;
    assert(x@.take(0) =~= Seq::<char>::empty());
    while k < x.len() && used < n
        invariant
            k <= x@.len(),
            used == byte_len(x@.take(k as int)),
            used < n + 4,
            n < usize::MAX - 4,
            forall|j: int| 0 <= j < k ==> byte_len(#[trigger] x@.take(j)) < n,
        decreases x@.len() - k,
    {
        assert(x@.take(k + 1).drop_last() =~= x@.take(k as int));
        used = used + width_of(x[k]);
        k = k + 1;
    }
    proof {
        assert forall|j: int| k < j <= x@.len() implies byte_len(#[trigger] x@.take(j)) > used by {
            lemma_byte_len_grows(x@, k as int, j);
        }
    }
    if used == n {
        proof {
            assert(byte_len(s@.take(k as int)) == n);
        }
        slice_of_prefix(&x, k)
    } else {
        own(s)
    }
}

/// Whether the UTF-8 form of `s` takes more than `n` bytes.
pub fn bytes_exceed(s: &str, n: usize) -> (r: bool)
    requires
        n < usize::MAX - 4,
    ensures
        r == (byte_len(s@) > n),
{
    let x = chars_of(s);
    let mut used: usize = 0;
    assert(x@.take(0) =~= Seq::<char>::empty());
    for i in 0..x.len()
        invariant
            x@ == s@,
            used == byte_len(x@.take(i as int)),
            used <= n,
            n < usize::MAX - 4,
    {
        assert(x@.take(i + 1).drop_last() =~= x@.take(i as int));
        used = used + width_of(x[i]);
        if used > n {
            proof {
                assert(x@.take(x@.len() as int) =~= x@);
                if i + 1 < x@.len() {
                    lemma_byte_len_grows(x@, i + 1, x@.len() as int);
                }
            }
            return true;
        }
    }
    assert(x@.take(x@.len() as int) =~= x@);
    false
}

/// The first `k` characters.
fn slice_of_prefix(x: &Vec<char>, k: usize) -> (r: String)
    requires
        k <= x@.len(),
    ensures
        r@ == x@.take(k as int),
{
    let r = slice_of(x, 0, k);
    assert(r@ =~= x@.take(k as int));
    r
}

// ---------------------------------------------------------------------
// What holds of texts
// ---------------------------------------------------------------------

/// A digit stands for its number.
proof fn lemma_digit(d: nat)
    requires
        d < 10,
    ensures
        is_digit(digit(d)),
        digit(d) as u32 - '0' as u32 == d,
{
}

/// The decimal form of a number is made of digits and writes the number.
pub proof fn lemma_decimal(n: nat)
    ensures
        all_digits(decimal(n)),
        digits_value(decimal(n)) == n,
    decreases n,
{
    if n < 10 {
        lemma_digit(n);
        assert(decimal(n).drop_last() =~= Seq::empty());
        assert(digits_value(Seq::<char>::empty()) == 0);
    } else {
        lemma_decimal(n / 10);
        lemma_digit(n % 10);
        assert(decimal(n).drop_last() =~= decimal(n / 10));
    }
}

/// A zero in front changes no number.
proof fn lemma_leading_zero(s: Seq<char>)
    requires
        forall|i: int| 0 <= i < s.len() ==> is_digit(#[trigger] s[i]),
    ensures
        all_digits(seq!['0'] + s),
        digits_value(seq!['0'] + s) == digits_value(s),
    decreases s.len(),
{
    let t = seq!['0'] + s;
    assert forall|i: int| 0 <= i < t.len() implies is_digit(#[trigger] t[i]) by {
        if i > 0 {
            assert(t[i] == s[i - 1]);
        }
    }
    if s.len() == 0 {
        assert(t.drop_last() =~= Seq::empty());
        assert(digits_value(Seq::<char>::empty()) == 0);
    } else {
        lemma_leading_zero(s.drop_last());
        assert(t.drop_last() =~= seq!['0'] + s.drop_last());
    }
}

/// Zeros in front change no number, and fill up to the width.
pub proof fn lemma_padded(s: Seq<char>, width: nat)
    requires
        all_digits(s),
    ensures
        all_digits(pad_zeros(s, width)),
        digits_value(pad_zeros(s, width)) == digits_value(s),
        s.len() <= width ==> pad_zeros(s, width).len() == width,
        s.len() >= width ==> pad_zeros(s, width) == s,
    decreases width - s.len(),
{
    if s.len() < width {
        lemma_leading_zero(s);
        lemma_padded(seq!['0'] + s, width);
    }
}

/// How many digits the decimal form of a small number has.
pub proof fn lemma_decimal_len(n: nat)
    ensures
        n < 10 ==> decimal(n).len() == 1,
        n < 100 ==> decimal(n).len() <= 2,
        n < 10000 ==> decimal(n).len() <= 4,
{
    reveal_with_fuel(decimal, 4);
}

/// A number reads back from its decimal form, with any number of zeros in
/// front.
pub proof fn law_number_reads_back(n: nat, width: nat, max: nat)
    requires
        n <= max,
    ensures
        number(decimal(n), max) == Some(n),
        number(pad_zeros(decimal(n), width), max) == Some(n),
{
    lemma_decimal(n);
    lemma_padded(decimal(n), width);
    assert(is_digit(decimal(n)[0]));
    assert(is_digit(pad_zeros(decimal(n), width)[0]));
}

/// What follows the lines of a text, each closed by a line feed.
pub open spec fn closed_lines(ls: Seq<Seq<char>>) -> Seq<char>
    decreases ls.len(),
{
    if ls.len() == 0 {
        Seq::empty()
    } else {
        closed_lines(ls.drop_last()) + ls.last() + seq!['\n']
    }
}

/// Whether a text is one line: it holds no line feed and ends in no carriage
/// return.
pub open spec fn is_line(s: Seq<char>) -> bool {
    !s.contains('\n') && (s.len() > 0 ==> s.last() != '\r')
}

/// The search for a character passes what does not hold it.
pub proof fn lemma_next_char_skips(s: Seq<char>, c: char, from: int, to: int)
    requires
        0 <= from <= to <= s.len(),
        forall|j: int| from <= j < to ==> s[j] != c,
    ensures
        next_char(s, c, from) == next_char(s, c, to),
    decreases to - from,
{
    if from < to {
        lemma_next_char_skips(s, c, from + 1, to);
    }
}

/// The lines of a text from a line on, where that line ends in a line feed.
proof fn lemma_line_ahead(before: Seq<char>, line: Seq<char>, rest: Seq<char>)
    requires
        is_line(line),
    ensures
        ({
            let s = before + line + seq!['\n'] + rest;
            lines_from(s, before.len() as int) == seq![line] + lines_from(
                s,
                (before.len() + line.len() + 1) as int,
            )
        }),
{
    let s = before + line + seq!['\n'] + rest;
    let from = before.len() as int;
    let end = from + line.len();
    assert forall|j: int| from <= j < end implies s[j] != '\n' by {
        assert(s[j] == line[j - from]);
        assert(line.contains(line[j - from]));
    }
    lemma_next_char_skips(s, '\n', from, end);
    assert(s[end] == '\n');
    assert(next_char(s, '\n', end) == end);
    assert(s.subrange(from, end) =~= line);
    assert(chomp(line) == line);
}

/// The lines of a text behind what was read are those that were written there.
proof fn lemma_closed_lines(before: Seq<char>, ls: Seq<Seq<char>>)
    requires
        forall|i: int| 0 <= i < ls.len() ==> is_line(#[trigger] ls[i]),
    ensures
        lines_from(before + closed_lines(ls), before.len() as int) == ls,
    decreases ls.len(),
{
    if ls.len() == 0 {
        assert(before + closed_lines(ls) =~= before);
    } else {
        let tail = ls.drop_first();
        lemma_closed_front(ls);
        let line = ls[0];
        let next = before + line + seq!['\n'];
        assert(before + closed_lines(ls) =~= next + closed_lines(tail));
        assert(next + closed_lines(tail) =~= before + line + seq!['\n'] + closed_lines(tail));
        assert forall|i: int| 0 <= i < tail.len() implies is_line(#[trigger] tail[i]) by {
            assert(tail[i] == ls[i + 1]);
        }
        lemma_closed_lines(next, tail);
        lemma_line_ahead(before, line, closed_lines(tail));
        assert(next.len() == before.len() + line.len() + 1);
        assert(seq![line] + tail =~= ls);
    }
}

/// Closed lines, the first taken off.
pub proof fn lemma_closed_front(ls: Seq<Seq<char>>)
    requires
        ls.len() > 0,
    ensures
        closed_lines(ls) == ls[0] + seq!['\n'] + closed_lines(ls.drop_first()),
    decreases ls.len(),
{
    if ls.len() == 1 {
        assert(ls.drop_last() =~= Seq::empty());
        assert(ls.drop_first() =~= Seq::empty());
        assert(closed_lines(ls) =~= ls[0] + seq!['\n'] + closed_lines(ls.drop_first()));
    } else {
        lemma_closed_front(ls.drop_last());
        assert(ls.drop_last().drop_first() =~= ls.drop_first().drop_last());
        assert(closed_lines(ls) =~= ls[0] + seq!['\n'] + closed_lines(ls.drop_first()));
    }
}

/// A text that is written line by line, each closed by a line feed, has those
/// lines.
pub proof fn law_lines_read_back(ls: Seq<Seq<char>>)
    requires
        forall|i: int| 0 <= i < ls.len() ==> is_line(#[trigger] ls[i]),
    ensures
        lines(closed_lines(ls)) == ls,
{
    lemma_closed_lines(Seq::empty(), ls);
    assert(Seq::<char>::empty() + closed_lines(ls) =~= closed_lines(ls));
}

/// Lines with line feeds between them and one at the end are closed lines.
pub proof fn lemma_closed_join(ls: Seq<Seq<char>>)
    requires
        ls.len() > 0,
    ensures
        join(ls, seq!['\n']).push('\n') == closed_lines(ls),
    decreases ls.len(),
{
    if ls.len() == 1 {
        assert(ls.drop_last() =~= Seq::empty());
        assert(closed_lines(ls.drop_last()) =~= Seq::empty());
        assert(closed_lines(ls) =~= ls[0].push('\n'));
    } else {
        lemma_closed_join(ls.drop_last());
        assert(join(ls, seq!['\n']).push('\n') =~= join(ls.drop_last(), seq!['\n']).push('\n')
            + ls.last() + seq!['\n']);
    }
}

/// A part of a joined list stands in it.
pub proof fn lemma_join_holds(parts: Seq<Seq<char>>, sep: Seq<char>, k: int) -> (at: int)
    requires
        0 <= k < parts.len(),
    ensures
        occurs_at(join(parts, sep), parts[k], at),
    decreases parts.len(),
{
    let all = join(parts, sep);
    if parts.len() == 1 {
        assert(all.subrange(0, all.len() as int) =~= parts[k]);
        0
    } else {
        let head = parts.drop_last();
        let before = join(head, sep);
        if k < head.len() {
            assert(head[k] == parts[k]);
            let at = lemma_join_holds(head, sep, k);
            assert(all.subrange(at, at + parts[k].len()) =~= before.subrange(
                at,
                at + parts[k].len(),
            ));
            at
        } else {
            let at = (before.len() + sep.len()) as int;
            assert(all.subrange(at, at + parts[k].len()) =~= parts[k]);
            at
        }
    }
}

/// Whether a text shows another anywhere.
pub open spec fn shows(s: Seq<char>, p: Seq<char>) -> bool {
    exists|at: int| #[trigger] occurs_at(s, p, at)
}

/// A text with text around it stands behind what is in front of it.
pub proof fn lemma_around(s: Seq<char>, a: Seq<char>, p: Seq<char>, b: Seq<char>)
    requires
        s == a + p + b,
    ensures
        occurs_at(s, p, a.len() as int),
        shows(s, p),
{
    assert(s.subrange(a.len() as int, (a.len() + p.len()) as int) =~= p);
    assert(occurs_at(s, p, a.len() as int));
}

/// What stands in a part stands in the whole.
pub proof fn lemma_within(s: Seq<char>, q: Seq<char>, p: Seq<char>, i: int, j: int)
    requires
        occurs_at(s, q, i),
        occurs_at(q, p, j),
    ensures
        occurs_at(s, p, i + j),
        shows(s, p),
{
    assert forall|x: int| 0 <= x < q.len() implies s[i + x] == q[x] by {
        assert(s.subrange(i, i + q.len())[x] == q[x]);
    }
    assert(s.subrange(i + j, i + j + p.len()) =~= q.subrange(j, j + p.len()));
    assert(occurs_at(s, p, i + j));
}

/// What a text shows it shows with more behind it.
pub proof fn lemma_shown_further(s: Seq<char>, p: Seq<char>, b: Seq<char>)
    requires
        shows(s, p),
    ensures
        shows(s + b, p),
        starts(s, p) ==> starts(s + b, p),
{
    let at = choose|at: int| #[trigger] occurs_at(s, p, at);
    assert((s + b).subrange(at, at + p.len()) =~= s.subrange(at, at + p.len()));
    assert(occurs_at(s + b, p, at));
    if starts(s, p) {
        assert((s + b).subrange(0, p.len() as int) =~= s.subrange(0, p.len() as int));
    }
}

/// What stands last in a text is shown.
pub proof fn lemma_shown_last(a: Seq<char>, p: Seq<char>)
    ensures
        shows(a + p, p),
{
    lemma_around(a + p, a, p, Seq::empty());
}

/// What a text shows it shows with two texts more behind it.
pub proof fn lemma_shown_on(s: Seq<char>, p: Seq<char>, a: Seq<char>, b: Seq<char>)
    requires
        shows(s, p),
    ensures
        shows(s + a + b, p),
        starts(s, p) ==> starts(s + a + b, p),
{
    lemma_shown_further(s, p, a);
    lemma_shown_further(s + a, p, b);
}

/// What a part of a text shows the text shows.
pub proof fn lemma_shown_within(s: Seq<char>, a: Seq<char>, q: Seq<char>, b: Seq<char>, p: Seq<char>)
    requires
        s == a + q + b,
        shows(q, p),
    ensures
        shows(s, p),
{
    lemma_around(s, a, q, b);
    let at = choose|at: int| #[trigger] occurs_at(q, p, at);
    lemma_within(s, q, p, a.len() as int, at);
}

/// What ASCII text begins with.
pub proof fn lemma_ascii_prefix(s: Seq<char>, n: nat)
    requires
        n <= s.len(),
        forall|i: int| 0 <= i < n ==> (#[trigger] s[i] as u32) < 0x80,
    ensures
        byte_prefix(s, n) == s.take(n as int),
{
    lemma_ascii_len(s, n);
    let k = choose|k: int| 0 <= k <= s.len() && byte_len(#[trigger] s.take(k)) == n;
    assert(byte_len(s.take(n as int)) == n);
    if k < n {
        lemma_byte_len_grows(s, k, n as int);
    } else if n < k {
        lemma_byte_len_grows(s, n as int, k);
    }
}

/// ASCII text has as many bytes as characters.
pub proof fn lemma_ascii_len(s: Seq<char>, n: nat)
    requires
        n <= s.len(),
        forall|i: int| 0 <= i < n ==> (#[trigger] s[i] as u32) < 0x80,
    ensures
        byte_len(s.take(n as int)) == n,
    decreases n,
{
    if n > 0 {
        lemma_ascii_len(s, (n - 1) as nat);
        assert(s.take(n as int).drop_last() =~= s.take(n - 1));
        assert(s.take(n as int).last() == s[n - 1]);
    }
}

/// Putting texts together goes in any order of brackets.
pub proof fn lemma_assoc(a: Seq<char>, b: Seq<char>, c: Seq<char>)
    ensures
        a + b + c == a + (b + c),
{
    assert(a + b + c =~= a + (b + c));
}

/// What a text shows it shows with text in front of it.
pub proof fn lemma_shown_behind(a: Seq<char>, s: Seq<char>, p: Seq<char>)
    requires
        shows(s, p),
    ensures
        shows(a + s, p),
{
    assert(a + s =~= a + s + Seq::empty());
    lemma_shown_within(a + s, a, s, Seq::empty(), p);
}

/// What begins a text is shown.
pub proof fn lemma_first_shown(p: Seq<char>, b: Seq<char>)
    ensures
        shows(p + b, p),
{
    assert(Seq::<char>::empty() + p =~= p);
    lemma_shown_last(Seq::empty(), p);
    lemma_shown_further(p, p, b);
}

/// What is shown by what a text shows the text shows.
pub proof fn lemma_shown_through(s: Seq<char>, q: Seq<char>, p: Seq<char>)
    requires
        shows(s, q),
        shows(q, p),
    ensures
        shows(s, p),
{
    let i = choose|i: int| #[trigger] occurs_at(s, q, i);
    let j = choose|j: int| #[trigger] occurs_at(q, p, j);
    lemma_within(s, q, p, i, j);
}

} // verus!
