//! What holds of dates, of windows and of the due brief, over the calendar and
//! over what the brief lists.

use crate::due::{
    all_lines, brief_text, date_of, day_number, days_in_month, declares_due, dedup, due_before,
    end_text, entries_text, entry_text, iso_date, law_brief_holds_what_is_owed, law_date_of,
    lead_text, lemma_months, lemma_year_step, overdue_count, prefixed, shifted, takes_part,
    window_label, window_of, ymd_of, DueLine, DueWindow, Span,
};
use crate::engine::{schema_of, MountedBackend};
use crate::entity::{meta_value, Entity, MetadataValue};
use crate::schema::{type_index, DueAxis, Schema};
use crate::sort::{
    law_sorted_is_ordered, law_sorted_keeps, lemma_lex_is_strict_order, lemma_same_members, sorted,
};
use crate::text::{
    all_digits, decimal, digits_value, is_digit, join, law_number_reads_back, lemma_around,
    lemma_ascii_prefix, lemma_assoc, lemma_decimal, lemma_decimal_len, lemma_join_holds,
    lemma_lex_irreflexive, lemma_lex_transitive, lemma_next_char_skips, lemma_padded,
    lemma_shown_behind, lemma_shown_further, lemma_shown_last, lemma_shown_within, lemma_within,
    lex_less, lines, next_char, number, occurs_at, pad_zeros, shows, starts, texts,
};
use crate::workspace::MountCapability;
use std::sync::Arc;
use vstd::prelude::*;

verus! {

// ---------------------------------------------------------------------
// The calendar
// ---------------------------------------------------------------------

/// Whether a date of the Gregorian calendar exists, with the months written
/// out.
pub open spec fn on_calendar(y: int, m: int, d: int) -> bool {
    &&& 1 <= m <= 12
    &&& 1 <= d <= 31
    &&& m == 4 || m == 6 || m == 9 || m == 11 ==> d <= 30
    &&& m == 2 ==> d <= 29
    &&& m == 2 && d == 29 ==> y % 4 == 0 && (y % 100 == 0 ==> y % 400 == 0)
}

/// Whether one date lies before another.
pub open spec fn is_before(a: (int, int, int), b: (int, int, int)) -> bool {
    a.0 < b.0 || (a.0 == b.0 && (a.1 < b.1 || (a.1 == b.1 && a.2 < b.2)))
}

/// The dates of the calendar are those with a day within their month.
proof fn lemma_on_calendar(y: int, m: int, d: int)
    ensures
        on_calendar(y, m, d) == crate::due::is_date(y, m, d),
{
}

/// The day number counts the days of the calendar: it is 0 on the first day of
/// 1970, and one more on the day behind, be that in the same month, in the
/// next month or in the next year.
pub proof fn law_day_number_counts_days(y: int, m: int, d: int)
    requires
        on_calendar(y, m, d),
    ensures
        day_number(1970, 1, 1) == 0,
        on_calendar(y, m, d + 1) ==> day_number(y, m, d + 1) == day_number(y, m, d) + 1,
        !on_calendar(y, m, d + 1) && m < 12 ==> day_number(y, m + 1, 1) == day_number(y, m, d) + 1,
        !on_calendar(y, m, d + 1) && m == 12 ==> day_number(y + 1, 1, 1) == day_number(y, m, d) + 1,
{
    lemma_months(y);
    lemma_months(y + 1);
    lemma_year_step(y);
    lemma_months(1970);
}

/// Every day number is that of a date.
proof fn lemma_every_day(z: int) -> (t: (int, int, int))
    ensures
        on_calendar(t.0, t.1, t.2),
        day_number(t.0, t.1, t.2) == z,
    decreases if z < 0 { -z } else { z },
{
    if z == 0 {
        law_day_number_counts_days(1970, 1, 1);
        (1970, 1, 1)
    } else if z > 0 {
        let (y, m, d) = lemma_every_day(z - 1);
        law_day_number_counts_days(y, m, d);
        if on_calendar(y, m, d + 1) {
            (y, m, d + 1)
        } else if m < 12 {
            (y, m + 1, 1)
        } else {
            (y + 1, 1, 1)
        }
    } else {
        let (y, m, d) = lemma_every_day(z + 1);
        lemma_months(y);
        lemma_months(y - 1);
        lemma_year_step(y - 1);
        if d > 1 {
            (y, m, d - 1)
        } else if m > 1 {
            (y, m - 1, days_in_month(y, m - 1))
        } else {
            (y - 1, 12, 31)
        }
    }
}

/// Every day number is that of just one date.
pub proof fn law_every_day_has_its_date(z: int)
    ensures
        on_calendar(date_of(z).0, date_of(z).1, date_of(z).2),
        day_number(date_of(z).0, date_of(z).1, date_of(z).2) == z,
{
    let t = lemma_every_day(z);
    lemma_on_calendar(t.0, t.1, t.2);
    law_date_of(t.0, t.1, t.2);
}

// ---------------------------------------------------------------------
// Dates in text
// ---------------------------------------------------------------------

/// The parts of a date in ISO form.
proof fn lemma_iso(y: int, m: int, d: int)
    requires
        0 <= y <= 9999,
        on_calendar(y, m, d),
    ensures
        ({
            let ys = pad_zeros(decimal(y as nat), 4);
            let ms = pad_zeros(decimal(m as nat), 2);
            let ds = pad_zeros(decimal(d as nat), 2);
            &&& iso_date(y, m, d) == ys + seq!['-'] + ms + seq!['-'] + ds
            &&& ys.len() == 4 && ms.len() == 2 && ds.len() == 2
            &&& all_digits(ys) && all_digits(ms) && all_digits(ds)
            &&& digits_value(ys) == y && digits_value(ms) == m && digits_value(ds) == d
        }),
{
    reveal_strlit("-");
    lemma_decimal(y as nat);
    lemma_decimal(m as nat);
    lemma_decimal(d as nat);
    lemma_decimal_len(y as nat);
    lemma_decimal_len(m as nat);
    lemma_decimal_len(d as nat);
    lemma_padded(decimal(y as nat), 4);
    lemma_padded(decimal(m as nat), 2);
    lemma_padded(decimal(d as nat), 2);
    assert("-"@ =~= seq!['-']);
}

/// A date of a year of four digits has ten characters in ISO form: digits,
/// with a dash behind the year and behind the month.
pub proof fn law_iso_date_has_ten_characters(y: int, m: int, d: int)
    requires
        0 <= y <= 9999,
        on_calendar(y, m, d),
    ensures
        iso_date(y, m, d).len() == 10,
        iso_date(y, m, d)[4] == '-',
        iso_date(y, m, d)[7] == '-',
        forall|i: int|
            0 <= i < 10 && i != 4 && i != 7 ==> is_digit(#[trigger] iso_date(y, m, d)[i]),
{
    lemma_iso(y, m, d);
    let ys = pad_zeros(decimal(y as nat), 4);
    let ms = pad_zeros(decimal(m as nat), 2);
    let ds = pad_zeros(decimal(d as nat), 2);
    let s = iso_date(y, m, d);
    assert forall|i: int| 0 <= i < 10 && i != 4 && i != 7 implies is_digit(#[trigger] s[i]) by {
        if i < 4 {
            assert(s[i] == ys[i]);
        } else if i < 7 {
            assert(s[i] == ms[i - 5]);
        } else {
            assert(s[i] == ds[i - 8]);
        }
    }
}

/// Every date of the calendar is read back from its ISO form, whatever stands
/// behind it.
pub proof fn law_iso_date_reads_back(y: int, m: int, d: int, rest: Seq<char>)
    requires
        0 <= y <= 9999,
        on_calendar(y, m, d),
    ensures
        ymd_of(iso_date(y, m, d)) == Some((y, m, d)),
        ymd_of(iso_date(y, m, d) + rest) == Some((y, m, d)),
{
    assert(iso_date(y, m, d) + Seq::<char>::empty() =~= iso_date(y, m, d));
    lemma_reads_back(y, m, d, Seq::empty());
    lemma_reads_back(y, m, d, rest);
}

/// A date in ISO form is read back.
proof fn lemma_reads_back(y: int, m: int, d: int, rest: Seq<char>)
    requires
        0 <= y <= 9999,
        on_calendar(y, m, d),
    ensures
        ymd_of(iso_date(y, m, d) + rest) == Some((y, m, d)),
{
    lemma_iso(y, m, d);
    law_iso_date_has_ten_characters(y, m, d);
    let t = iso_date(y, m, d);
    let s = t + rest;
    assert forall|i: int| 0 <= i < 10 implies s[i] == t[i] by {}
    assert forall|j: int| 0 <= j < 4 implies s[j] != '-' by {
        assert(is_digit(t[j]));
    }
    lemma_next_char_skips(s, '-', 0, 4);
    assert forall|j: int| 5 <= j < 7 implies s[j] != '-' by {
        assert(is_digit(t[j]));
    }
    lemma_next_char_skips(s, '-', 5, 7);
    assert(next_char(s, '-', 4) == 4);
    assert(next_char(s, '-', 7) == 7);
    assert(s.subrange(0, 4) =~= pad_zeros(decimal(y as nat), 4));
    assert(s.subrange(5, 7) =~= pad_zeros(decimal(m as nat), 2));
    assert(s.subrange(8, 10) =~= pad_zeros(decimal(d as nat), 2));
    law_number_reads_back(y as nat, 4, i64::MAX as nat);
    law_number_reads_back(m as nat, 2, u32::MAX as nat);
    law_number_reads_back(d as nat, 2, u32::MAX as nat);
}

/// What is read as a date has a month of the calendar and a day that some
/// month has, and the text holds two dashes with two characters behind them.
pub proof fn law_what_is_read_is_a_date(s: Seq<char>)
    requires
        ymd_of(s) is Some,
    ensures
        0 <= (ymd_of(s)->0).0,
        1 <= (ymd_of(s)->0).1 <= 12,
        1 <= (ymd_of(s)->0).2 <= 31,
        exists|a: int, b: int|
            0 < a < b - 1 && b + 2 < s.len() && #[trigger] s[a] == '-' && #[trigger] s[b] == '-',
{
    crate::text::lemma_next_char(s, '-', 0);
    let a = next_char(s, '-', 0);
    crate::text::lemma_next_char(s, '-', a + 1);
    let b = next_char(s, '-', a + 1);
    assert(s[a] == '-' && s[b] == '-');
    assert(number(s.subrange(0, a), i64::MAX as nat) is Some);
    assert(number(s.subrange(a + 1, b), u32::MAX as nat) is Some);
}

/// Order of concatenations whose first parts have one length.
proof fn lemma_lex_concat(a: Seq<char>, b: Seq<char>, x: Seq<char>, y: Seq<char>)
    requires
        a.len() == b.len(),
    ensures
        lex_less(a + x, b + y) == (lex_less(a, b) || (a == b && lex_less(x, y))),
    decreases a.len(),
{
    if a.len() == 0 {
        assert(a + x =~= x);
        assert(b + y =~= y);
        assert(a =~= b);
    } else {
        lemma_lex_concat(a.drop_first(), b.drop_first(), x, y);
        assert((a + x).drop_first() =~= a.drop_first() + x);
        assert((b + y).drop_first() =~= b.drop_first() + y);
        assert((a + x)[0] == a[0] && (b + y)[0] == b[0]);
        if a[0] == b[0] {
            if a.drop_first() == b.drop_first() {
                assert(a =~= seq![a[0]] + a.drop_first());
                assert(b =~= seq![b[0]] + b.drop_first());
            }
        }
    }
}

/// Digits of one length are ordered as their values are.
proof fn lemma_lex_digits(a: Seq<char>, b: Seq<char>)
    requires
        a.len() == b.len(),
        forall|i: int| 0 <= i < a.len() ==> is_digit(#[trigger] a[i]),
        forall|i: int| 0 <= i < b.len() ==> is_digit(#[trigger] b[i]),
    ensures
        lex_less(a, b) == (digits_value(a) < digits_value(b)),
        a == b <==> digits_value(a) == digits_value(b),
    decreases a.len(),
{
    if a.len() == 0 {
        assert(a =~= b);
    } else {
        let ha = a.drop_last();
        let hb = b.drop_last();
        assert forall|i: int| 0 <= i < ha.len() implies is_digit(#[trigger] ha[i]) by {
            assert(ha[i] == a[i]);
        }
        assert forall|i: int| 0 <= i < hb.len() implies is_digit(#[trigger] hb[i]) by {
            assert(hb[i] == b[i]);
        }
        lemma_lex_digits(ha, hb);
        let x = seq![a.last()];
        let y = seq![b.last()];
        assert(a =~= ha + x);
        assert(b =~= hb + y);
        lemma_lex_concat(ha, hb, x, y);
        reveal_with_fuel(lex_less, 2);
        assert(is_digit(a[a.len() - 1]));
        assert(is_digit(b[b.len() - 1]));
        if ha == hb && a.last() == b.last() {
            assert(a =~= b);
        }
        assert(x.drop_first() =~= Seq::empty());
        assert(y.drop_first() =~= Seq::empty());
    }
}

/// Dates in ISO form stand in the order of the calendar.
#[verifier::rlimit(40)]
pub proof fn law_iso_order_is_date_order(a: (int, int, int), b: (int, int, int))
    requires
        0 <= a.0 <= 9999,
        on_calendar(a.0, a.1, a.2),
        0 <= b.0 <= 9999,
        on_calendar(b.0, b.1, b.2),
    ensures
        lex_less(iso_date(a.0, a.1, a.2), iso_date(b.0, b.1, b.2)) == is_before(a, b),
{
    lemma_iso(a.0, a.1, a.2);
    lemma_iso(b.0, b.1, b.2);
    let dash = seq!['-'];
    let (ay, am, ad) = (
        pad_zeros(decimal(a.0 as nat), 4),
        pad_zeros(decimal(a.1 as nat), 2),
        pad_zeros(decimal(a.2 as nat), 2),
    );
    let (by, bm, bd) = (
        pad_zeros(decimal(b.0 as nat), 4),
        pad_zeros(decimal(b.1 as nat), 2),
        pad_zeros(decimal(b.2 as nat), 2),
    );
    lemma_lex_digits(ay, by);
    lemma_lex_digits(am, bm);
    lemma_lex_digits(ad, bd);
    lemma_lex_irreflexive(dash);
    lemma_lex_concat(ay, by, dash, dash);
    lemma_lex_concat(ay + dash, by + dash, am, bm);
    lemma_lex_concat(ay + dash + am, by + dash + bm, dash, dash);
    lemma_lex_concat(ay + dash + am + dash, by + dash + bm + dash, ad, bd);
    if ay + dash == by + dash {
        assert(ay =~= (ay + dash).take(4));
        assert(by =~= (by + dash).take(4));
    }
    if ay + dash + am == by + dash + bm {
        assert(ay =~= (ay + dash + am).take(4));
        assert(by =~= (by + dash + bm).take(4));
        assert(am =~= (ay + dash + am).skip(5));
        assert(bm =~= (by + dash + bm).skip(5));
    }
    if ay + dash + am + dash == by + dash + bm + dash {
        assert(ay + dash + am =~= (ay + dash + am + dash).take(7));
        assert(by + dash + bm =~= (by + dash + bm + dash).take(7));
    }
}

// ---------------------------------------------------------------------
// Windows
// ---------------------------------------------------------------------

/// A window is read back from its label.
pub proof fn law_window_reads_back(w: DueWindow)
    ensures
        window_of(window_label(w)) == Some(w),
{
    reveal_strlit("d");
    reveal_strlit("m");
    reveal_strlit("y");
    let n = match w {
        DueWindow::Days(n) => n,
        DueWindow::Months(n) => n,
        DueWindow::Years(n) => n,
    };
    law_number_reads_back(n as nat, 0, u32::MAX as nat);
    assert(window_label(w).drop_last() =~= decimal(n as nat));
}

/// A number is read as so many days with `d` behind it, as months with `m` and
/// as years with `y`; with another letter, or where it does not fit in 32
/// bits, it is no window.
pub proof fn law_window_by_its_unit(n: nat, unit: char)
    ensures
        window_of(decimal(n).push(unit)) == (if n > u32::MAX {
            None
        } else if unit == 'd' {
            Some(DueWindow::Days(n as u32))
        } else if unit == 'm' {
            Some(DueWindow::Months(n as u32))
        } else if unit == 'y' {
            Some(DueWindow::Years(n as u32))
        } else {
            None
        }),
        window_of(Seq::empty()) is None,
        window_of(seq![unit]) is None,
{
    lemma_decimal(n);
    assert(decimal(n).push(unit).drop_last() =~= decimal(n));
    assert(seq![unit].drop_last() =~= Seq::empty());
    assert(is_digit(decimal(n)[0]));
}

/// A window in days ends so many days later.
pub proof fn law_days_later(y: int, m: int, d: int, n: u32)
    ensures
        ({
            let e = shifted(y, m, d, DueWindow::Days(n));
            on_calendar(e.0, e.1, e.2) && day_number(e.0, e.1, e.2) == day_number(y, m, d) + n
        }),
{
    law_every_day_has_its_date(day_number(y, m, d) + n);
}

/// A window in months or years ends so many months later, on the same day of
/// the month or, where the month is shorter, on its last.
pub proof fn law_months_later(y: int, m: int, d: int, n: u32)
    requires
        on_calendar(y, m, d),
    ensures
        ({
            let e = shifted(y, m, d, DueWindow::Months(n));
            &&& on_calendar(e.0, e.1, e.2)
            &&& e.0 * 12 + e.1 == y * 12 + m + n
            &&& e.2 == d || (e.2 < d && !on_calendar(e.0, e.1, e.2 + 1))
        }),
        ({
            let e = shifted(y, m, d, DueWindow::Years(n));
            &&& on_calendar(e.0, e.1, e.2)
            &&& e.0 == y + n && e.1 == m
            &&& e.2 == d || (e.2 < d && !on_calendar(e.0, e.1, e.2 + 1))
        }),
{
}

/// So many years are twelve times as many months.
pub proof fn law_year_is_twelve_months(y: int, m: int, d: int, n: u32, k: u32)
    requires
        on_calendar(y, m, d),
        k == 12 * n,
    ensures
        shifted(y, m, d, DueWindow::Years(n)) == shifted(y, m, d, DueWindow::Months(k)),
{
}

// ---------------------------------------------------------------------
// The entries of the brief
// ---------------------------------------------------------------------

/// The type that a name leads to is one of the list.
proof fn lemma_type_index(schema: Schema, name: Seq<char>, i: int)
    requires
        0 <= i,
    ensures
        type_index(schema.types@, name, i) matches Some(k) ==> i <= k < schema.types@.len(),
    decreases schema.types@.len() - i,
{
    if i < schema.types@.len() {
        lemma_type_index(schema, name, i + 1);
    }
}

/// Whether an entity is an open one of a mem that is due on `date`: it is
/// written, its type declares the axis `due`, the axis's status field holds an
/// open value, and its date field begins with the date in ISO form.
pub open spec fn is_open_on(
    e: Entity,
    mem: Seq<char>,
    schema: Schema,
    due: DueAxis,
    status: Seq<char>,
    date: (int, int, int),
) -> bool {
    &&& e.mem@ == mem
    &&& !e.stub
    &&& schema.type_named(e.entity_type@) matches Some(t) && t.due == Some(due)
    &&& meta_value(e.metadata@, due.status_field@, 0) matches Some(MetadataValue::String(s)) && s@
        == status && texts(due.open_values@).contains(s@)
    &&& meta_value(e.metadata@, due.date_field@, 0) matches Some(MetadataValue::String(s))
        && starts(s@, iso_date(date.0, date.1, date.2))
}

/// An open entity whose date is not after the end of the window has an entry,
/// wherever its mem is mounted under a schema and the filter asks for it: with
/// the entity's id and title, its date and status, marked as overdue just
/// where the date lies before today, and as a third party's just where the
/// mount is read-only.
#[verifier::rlimit(40)]
pub proof fn law_open_entity_is_listed<B>(
    mounts: Seq<MountedBackend<B>>,
    es: Seq<Entity>,
    schemas: Seq<(String, Arc<Schema>)>,
    filter: Option<Seq<char>>,
    today: (int, int, int),
    end: (int, int, int),
    i: int,
    j: int,
    due: DueAxis,
    status: Seq<char>,
    date: (int, int, int),
) -> (l: DueLine)
    requires
        0 <= i < mounts.len(),
        0 <= j < es.len(),
        filter matches Some(f) ==> mounts[i].mount.mem@ == f,
        schema_of(schemas, mounts[i].mount.mem@) is Some,
        is_open_on(
            es[j],
            mounts[i].mount.mem@,
            *schema_of(schemas, mounts[i].mount.mem@)->0,
            due,
            status,
            date,
        ),
        0 <= today.0 <= 9999,
        on_calendar(today.0, today.1, today.2),
        0 <= end.0 <= 9999,
        on_calendar(end.0, end.1, end.2),
        0 <= date.0 <= 9999,
        on_calendar(date.0, date.1, date.2),
        !is_before(end, date),
    ensures
        all_lines(
            mounts,
            es,
            schemas,
            filter,
            Span {
                today: iso_date(today.0, today.1, today.2),
                end: iso_date(end.0, end.1, end.2),
            },
        ).contains(l),
        l.mem == mounts[i].mount.mem@,
        l.id == es[j].id.0@,
        l.title == es[j].title@,
        l.status == status,
        l.date == iso_date(date.0, date.1, date.2),
        l.overdue == is_before(date, today),
        l.third_party == (mounts[i].mount.capability == MountCapability::ReadOnly),
{
    let mem = mounts[i].mount.mem@;
    let schema = *schema_of(schemas, mem)->0;
    let span = Span {
        today: iso_date(today.0, today.1, today.2),
        end: iso_date(end.0, end.1, end.2),
    };
    let e = es[j];
    let iso = iso_date(date.0, date.1, date.2);
    let third_party = mounts[i].mount.capability == MountCapability::ReadOnly;
    law_iso_date_has_ten_characters(date.0, date.1, date.2);
    law_iso_date_reads_back(date.0, date.1, date.2, Seq::empty());
    law_iso_order_is_date_order(end, date);
    law_iso_order_is_date_order(date, today);
    let text = match meta_value(e.metadata@, due.date_field@, 0) {
        Some(MetadataValue::String(s)) => s@,
        _ => Seq::empty(),
    };
    assert(text.subrange(0, 10) == iso);
    assert forall|k: int| 0 <= k < 10 implies (#[trigger] text[k] as u32) < 0x80 by {
        assert(text.subrange(0, 10)[k] == text[k]);
        assert(k != 4 && k != 7 ==> is_digit(iso[k]));
    }
    lemma_ascii_prefix(text, 10);
    assert(text.take(10) =~= iso);
    lemma_type_index(schema, e.entity_type@, 0);
    let at = type_index(schema.types@, e.entity_type@, 0)->0;
    assert(schema.types@[at].due is Some);
    assert(declares_due(schema));
    assert(takes_part(mounts[i], schemas, filter));
    let line = crate::due::due_line(e, schema, mem, third_party, span);
    let l = line->0;
    assert(line == Some(l));
    assert(crate::due::is_line_of(es, schema, mem, third_party, span, l));
    assert(crate::due::is_owed(mounts, es, schemas, filter, span, l));
    law_brief_holds_what_is_owed(mounts, es, schemas, filter, span, l);
    l
}

/// Whether an entity is one that an entry may tell of: written, of the mem of
/// the entry, with its id and title, and with its status as an open value of
/// the axis of its type.
pub open spec fn tells_of(l: DueLine, e: Entity, schema: Schema) -> bool {
    &&& e.mem@ == l.mem
    &&& !e.stub
    &&& e.id.0@ == l.id
    &&& e.title@ == l.title
    &&& schema.type_named(e.entity_type@) matches Some(t) && (t.due matches Some(due) && texts(
        due.open_values@,
    ).contains(l.status) && (meta_value(e.metadata@, due.status_field@, 0) matches Some(
        MetadataValue::String(s),
    ) && s@ == l.status))
}

/// Every entry tells of a written, open entity of a mem that is mounted and
/// asked for, with a date that is not after the end of the window.
pub proof fn law_entries_tell_of_open_entities<B>(
    mounts: Seq<MountedBackend<B>>,
    es: Seq<Entity>,
    schemas: Seq<(String, Arc<Schema>)>,
    filter: Option<Seq<char>>,
    span: Span,
    l: DueLine,
)
    requires
        all_lines(mounts, es, schemas, filter, span).contains(l),
    ensures
        filter matches Some(f) ==> l.mem == f,
        ymd_of(l.date) is Some,
        !lex_less(span.end, l.date),
        l.overdue == lex_less(l.date, span.today),
        exists|i: int| 0 <= i < mounts.len() && (#[trigger] mounts[i]).mount.mem@ == l.mem,
        schema_of(schemas, l.mem) matches Some(schema) && exists|j: int|
            0 <= j < es.len() && tells_of(l, #[trigger] es[j], *schema),
{
    law_brief_holds_what_is_owed(mounts, es, schemas, filter, span, l);
    let i = choose|i: int|
        0 <= i < mounts.len() && takes_part(#[trigger] mounts[i], schemas, filter)
            && crate::due::is_line_of(
            es,
            *schema_of(schemas, mounts[i].mount.mem@)->0,
            mounts[i].mount.mem@,
            mounts[i].mount.capability == MountCapability::ReadOnly,
            span,
            l,
        );
    let mem = mounts[i].mount.mem@;
    let schema = *schema_of(schemas, mem)->0;
    let j = choose|j: int|
        0 <= j < es.len() && crate::due::due_line(
            #[trigger] es[j],
            schema,
            mem,
            mounts[i].mount.capability == MountCapability::ReadOnly,
            span,
        ) == Some(l);
    assert(tells_of(l, es[j], schema));
}

// ---------------------------------------------------------------------
// The text of the brief
// ---------------------------------------------------------------------

/// An entry stands among the entries.
proof fn lemma_entry_stands(s: Seq<DueLine>, k: int) -> (at: int)
    requires
        0 <= k < s.len(),
    ensures
        occurs_at(entries_text(s), entry_text(s[k]), at),
    decreases s.len(),
{
    let head = entries_text(s.drop_last());
    let all = entries_text(s);
    let p = entry_text(s[k]);
    if k < s.len() - 1 {
        let at = lemma_entry_stands(s.drop_last(), k);
        assert(all == Seq::empty() + head + entry_text(s.last()));
        lemma_around(all, Seq::empty(), head, entry_text(s.last()));
        lemma_within(all, head, p, 0, at);
        at
    } else {
        assert(all == head + p + Seq::empty());
        lemma_around(all, head, p, Seq::empty());
        head.len() as int
    }
}

/// The brief shows every entry.
pub proof fn law_brief_shows_every_entry(
    span: Span,
    window: DueWindow,
    mems: Seq<Seq<char>>,
    entries: Seq<DueLine>,
    l: DueLine,
) -> (at: int)
    requires
        mems.len() > 0,
        entries.contains(l),
    ensures
        occurs_at(brief_text(span, window, mems, entries), entry_text(l), at),
{
    let out = sorted(entries, |a: DueLine, b: DueLine| due_before(a, b));
    lemma_same_members(entries, |a: DueLine, b: DueLine| due_before(a, b), l);
    law_sorted_keeps(entries, |a: DueLine, b: DueLine| due_before(a, b));
    let k = choose|k: int| 0 <= k < out.len() && out[k] == l;
    let at = lemma_entry_stands(out, k);
    let text = brief_text(span, window, mems, entries);
    let tail = entries_text(out);
    let front = text.len() - tail.len();
    assert(text == text.take(front) + tail + Seq::empty());
    lemma_around(text, text.take(front), tail, Seq::empty());
    lemma_within(text, tail, entry_text(l), front, at);
    front + at
}

/// The text of an entry, with its literals cut where its parts are.
#[verifier::rlimit(40)]
proof fn lemma_entry_parts(l: DueLine, mark: Seq<char>, other: Seq<char>, lead: Seq<char>)
    requires
        mark == (if l.overdue {
            " **OVERDUE**"@
        } else {
            ""@
        }),
        other == (if l.third_party {
            " [third-party]"@
        } else {
            ""@
        }),
        lead == (match l.lead {
            Some(x) => crate::due::lead_text(x.0, x.1, l.third_party),
            None => Seq::empty(),
        }),
    ensures
        entry_text(l) == "- `"@ + l.id + "`"@ + " — "@ + l.title + " — "@ + "**"@ + l.date + "**"@
            + mark + " (status: "@ + l.status + ", "@ + "mem: "@ + l.mem + other + ")\n"@ + lead,
{
    assert("` — "@ =~= "`"@ + " — "@) by {
        reveal_strlit("` — ");
        reveal_strlit("`");
        reveal_strlit(" — ");
    }
    assert(" — **"@ =~= " — "@ + "**"@) by {
        reveal_strlit(" — **");
        reveal_strlit("**");
        reveal_strlit(" — ");
    }
    assert(", mem: "@ =~= ", "@ + "mem: "@) by {
        reveal_strlit(", mem: ");
        reveal_strlit(", ");
        reveal_strlit("mem: ");
    }
    let a = "- `"@ + l.id;
    lemma_assoc(a, "`"@, " — "@);
    let b = a + "`"@ + " — "@ + l.title;
    lemma_assoc(b, " — "@, "**"@);
    let c = b + " — "@ + "**"@ + l.date + "**"@ + mark + " (status: "@ + l.status;
    lemma_assoc(c, ", "@, "mem: "@);
}

/// An entry's text begins with the id and holds the title, the date, the
/// status and the mem; it says where the entry is overdue and where it is a
/// third party's.
#[verifier::rlimit(40)]
pub proof fn law_entry_says_it_all(l: DueLine)
    ensures
        starts(entry_text(l), "- `"@ + l.id + "`"@),
        shows(entry_text(l), l.title),
        shows(entry_text(l), "**"@ + l.date + "**"@),
        l.overdue ==> shows(entry_text(l), " **OVERDUE** (status: "@ + l.status),
        !l.overdue ==> shows(entry_text(l), "** (status: "@ + l.status),
        l.third_party ==> shows(entry_text(l), "mem: "@ + l.mem + " [third-party])\n"@),
        !l.third_party ==> shows(entry_text(l), "mem: "@ + l.mem + ")\n"@),
{
    let t = entry_text(l);
    let mark = if l.overdue {
        " **OVERDUE**"@
    } else {
        ""@
    };
    let other = if l.third_party {
        " [third-party]"@
    } else {
        ""@
    };
    let lead = match l.lead {
        Some(x) => crate::due::lead_text(x.0, x.1, l.third_party),
        None => Seq::empty(),
    };
    lemma_entry_parts(l, mark, other, lead);
    let id = "- `"@ + l.id + "`"@;
    let b1 = id + " — "@;
    let b2 = b1 + l.title;
    let b3 = b2 + " — "@;
    let b4 = b3 + "**"@ + l.date + "**"@;
    let b5 = b4 + mark + " (status: "@ + l.status;
    let b6 = b5 + ", "@;
    let b7 = b6 + "mem: "@ + l.mem + other + ")\n"@;
    let date = "**"@ + l.date + "**"@;
    let status = if l.overdue {
        " **OVERDUE** (status: "@ + l.status
    } else {
        "** (status: "@ + l.status
    };
    let mem = if l.third_party {
        "mem: "@ + l.mem + " [third-party])\n"@
    } else {
        "mem: "@ + l.mem + ")\n"@
    };
    assert(id =~= Seq::<char>::empty() + id);
    lemma_shown_last(Seq::empty(), id);
    assert(id.subrange(0, id.len() as int) =~= id);
    lemma_shown_last(b1, l.title);
    lemma_assoc(b3, "**"@, l.date);
    lemma_assoc(b3, "**"@ + l.date, "**"@);
    lemma_shown_last(b3, date);
    lemma_entry_status(l, b3, mark);
    lemma_entry_mem(l, b6, other);
    lemma_shown_further(id, id, " — "@);
    lemma_shown_further(b1, id, l.title);
    lemma_further(l, mark, other, b2, id);
    lemma_further(l, mark, other, b2, l.title);
    lemma_shown_further(b4, date, mark);
    lemma_shown_further(b4 + mark, date, " (status: "@);
    lemma_shown_further(b4 + mark + " (status: "@, date, l.status);
    lemma_last(l, other, b5, date);
    lemma_last(l, other, b5, status);
    lemma_shown_further(b7, id, lead);
    lemma_shown_further(b7, l.title, lead);
    lemma_shown_further(b7, date, lead);
    lemma_shown_further(b7, status, lead);
    lemma_shown_further(b7, mem, lead);
}

/// What an entry's text shows up to the title it shows up to the mem.
#[verifier::rlimit(40)]
proof fn lemma_further(
    l: DueLine,
    mark: Seq<char>,
    other: Seq<char>,
    b2: Seq<char>,
    p: Seq<char>,
)
    requires
        shows(b2, p),
    ensures
        ({
            let b5 = b2 + " — "@ + "**"@ + l.date + "**"@ + mark + " (status: "@ + l.status;
            let b7 = b5 + ", "@ + "mem: "@ + l.mem + other + ")\n"@;
            shows(b7, p) && (starts(b2, p) ==> starts(b7, p))
        }),
{
    let c1 = b2 + " — "@;
    let c2 = c1 + "**"@;
    let c3 = c2 + l.date;
    let c4 = c3 + "**"@;
    let c5 = c4 + mark;
    let c6 = c5 + " (status: "@;
    lemma_shown_further(b2, p, " — "@);
    lemma_shown_further(c1, p, "**"@);
    lemma_shown_further(c2, p, l.date);
    lemma_shown_further(c3, p, "**"@);
    lemma_shown_further(c4, p, mark);
    lemma_shown_further(c5, p, " (status: "@);
    lemma_shown_further(c6, p, l.status);
    lemma_last(l, other, c6 + l.status, p);
}

/// What an entry's text shows up to the status it shows up to the mem.
proof fn lemma_last(l: DueLine, other: Seq<char>, b5: Seq<char>, p: Seq<char>)
    requires
        shows(b5, p),
    ensures
        ({
            let b7 = b5 + ", "@ + "mem: "@ + l.mem + other + ")\n"@;
            shows(b7, p) && (starts(b5, p) ==> starts(b7, p))
        }),
{
    let c1 = b5 + ", "@;
    let c2 = c1 + "mem: "@;
    let c3 = c2 + l.mem;
    let c4 = c3 + other;
    lemma_shown_further(b5, p, ", "@);
    lemma_shown_further(c1, p, "mem: "@);
    lemma_shown_further(c2, p, l.mem);
    lemma_shown_further(c3, p, other);
    lemma_shown_further(c4, p, ")\n"@);
}

/// The mem in an entry's text.
#[verifier::rlimit(40)]
proof fn lemma_entry_mem(l: DueLine, front: Seq<char>, other: Seq<char>)
    requires
        other == (if l.third_party {
            " [third-party]"@
        } else {
            ""@
        }),
    ensures
        shows(
            front + "mem: "@ + l.mem + other + ")\n"@,
            if l.third_party {
                "mem: "@ + l.mem + " [third-party])\n"@
            } else {
                "mem: "@ + l.mem + ")\n"@
            },
        ),
{
    let p = "mem: "@ + l.mem + other + ")\n"@;
    lemma_assoc(front, "mem: "@, l.mem);
    lemma_assoc(front, "mem: "@ + l.mem, other);
    lemma_assoc(front, "mem: "@ + l.mem + other, ")\n"@);
    lemma_shown_last(front, p);
    if l.third_party {
        assert(" [third-party])\n"@ =~= " [third-party]"@ + ")\n"@) by {
            reveal_strlit(" [third-party])\n");
            reveal_strlit(" [third-party]");
            reveal_strlit(")\n");
        }
        lemma_assoc("mem: "@ + l.mem, other, ")\n"@);
    } else {
        assert(other =~= Seq::empty()) by {
            reveal_strlit("");
        }
        assert("mem: "@ + l.mem + other =~= "mem: "@ + l.mem);
    }
}

/// The status in an entry's text, behind the date or behind the mark.
#[verifier::rlimit(40)]
proof fn lemma_entry_status(l: DueLine, front: Seq<char>, mark: Seq<char>)
    requires
        mark == (if l.overdue {
            " **OVERDUE**"@
        } else {
            ""@
        }),
    ensures
        shows(
            front + "**"@ + l.date + "**"@ + mark + " (status: "@ + l.status,
            if l.overdue {
                " **OVERDUE** (status: "@ + l.status
            } else {
                "** (status: "@ + l.status
            },
        ),
{
    let t = front + "**"@ + l.date + "**"@ + mark + " (status: "@ + l.status;
    if l.overdue {
        assert(" **OVERDUE** (status: "@ =~= mark + " (status: "@) by {
            reveal_strlit(" **OVERDUE** (status: ");
            reveal_strlit(" **OVERDUE**");
            reveal_strlit(" (status: ");
        }
        let a = front + "**"@ + l.date + "**"@;
        let p = " **OVERDUE** (status: "@ + l.status;
        lemma_assoc(a, mark, " (status: "@);
        lemma_assoc(a, " **OVERDUE** (status: "@, l.status);
        lemma_shown_last(a, p);
    } else {
        assert("** (status: "@ =~= "**"@ + mark + " (status: "@) by {
            reveal_strlit("** (status: ");
            reveal_strlit("**");
            reveal_strlit("");
            reveal_strlit(" (status: ");
        }
        let a = front + "**"@ + l.date;
        let p = "** (status: "@ + l.status;
        lemma_assoc(a, "**"@, mark);
        lemma_assoc(a, "**"@ + mark, " (status: "@);
        lemma_assoc(a, "** (status: "@, l.status);
        lemma_shown_last(a, p);
    }
}

/// The count of overdue entries is the number of entries that are.
pub proof fn law_overdue_count_counts(s: Seq<DueLine>)
    ensures
        overdue_count(s) == s.filter(|l: DueLine| l.overdue).len(),
    decreases s.len(),
{
    reveal(Seq::filter);
    if s.len() > 0 {
        law_overdue_count_counts(s.drop_last());
    }
}

/// Taking out repeats of a sorted list keeps every name, once.
#[verifier::rlimit(40)]
pub proof fn law_dedup_names_each_once(s: Seq<Seq<char>>)
    requires
        forall|i: int, j: int| 0 <= i < j < s.len() ==> !lex_less(#[trigger] s[j], #[trigger] s[i]),
    ensures
        forall|t: Seq<char>| dedup(s).contains(t) <==> #[trigger] s.contains(t),
        forall|i: int, j: int|
            0 <= i < j < dedup(s).len() ==> lex_less(
                #[trigger] dedup(s)[i],
                #[trigger] dedup(s)[j],
            ),
        s.len() > 0 ==> dedup(s).len() > 0 && dedup(s).last() == s.last(),
    decreases s.len(),
{
    if s.len() > 0 {
        let head = s.drop_last();
        let n = s.len() - 1;
        assert forall|i: int, j: int| 0 <= i < j < head.len() implies !lex_less(
            #[trigger] head[j],
            #[trigger] head[i],
        ) by {
            assert(head[j] == s[j] && head[i] == s[i]);
        }
        law_dedup_names_each_once(head);
        let d = dedup(head);
        let out = dedup(s);
        assert forall|t: Seq<char>| out.contains(t) <==> #[trigger] s.contains(t) by {
            if s.contains(t) {
                let k = choose|k: int| 0 <= k < s.len() && s[k] == t;
                if k < n {
                    assert(head[k] == t);
                    assert(head.contains(t));
                    let i = choose|i: int| 0 <= i < d.len() && d[i] == t;
                    assert(out[i] == t);
                } else {
                    assert(out[out.len() - 1] == t);
                }
            }
            if out.contains(t) {
                let k = choose|k: int| 0 <= k < out.len() && out[k] == t;
                if k < d.len() {
                    assert(d[k] == t);
                    assert(d.contains(t));
                    assert(head.contains(t));
                    let i = choose|i: int| 0 <= i < head.len() && head[i] == t;
                    assert(s[i] == t);
                } else {
                    assert(s[n] == t);
                }
            }
        }
        assert forall|i: int, j: int| 0 <= i < j < out.len() implies lex_less(
            #[trigger] out[i],
            #[trigger] out[j],
        ) by {
            if j < d.len() {
                assert(lex_less(d[i], d[j]));
            } else {
                assert(d.last() == head.last());
                assert(s[n - 1] == head.last());
                assert(s[n - 1] != s[n]);
                assert(!lex_less(s[n], s[n - 1]));
                crate::text::lemma_lex_total(s[n - 1], s[n]);
                if i < d.len() - 1 {
                    assert(lex_less(d[i], d[d.len() - 1]));
                    lemma_lex_transitive(d[i], s[n - 1], s[n]);
                }
            }
        }
    }
}

/// The brief names each mem that takes part.
#[verifier::rlimit(40)]
pub proof fn law_brief_names_every_mem(
    span: Span,
    window: DueWindow,
    mems: Seq<Seq<char>>,
    entries: Seq<DueLine>,
    mem: Seq<char>,
)
    requires
        mems.contains(mem),
    ensures
        shows(brief_text(span, window, mems, entries), mem),
{
    let less = |a: Seq<char>, b: Seq<char>| lex_less(a, b);
    let all = sorted(mems, less);
    lemma_same_members(mems, less, mem);
    lemma_lex_is_strict_order();
    law_sorted_is_ordered(mems, less);
    assert forall|i: int, j: int| 0 <= i < j < all.len() implies !lex_less(
        #[trigger] all[j],
        #[trigger] all[i],
    ) by {
        assert(!less(all[j], all[i]));
    }
    law_dedup_names_each_once(all);
    let names = dedup(all);
    assert(all.contains(mem));
    let k = choose|k: int| 0 <= k < names.len() && names[k] == mem;
    let at = lemma_join_holds(names, ", "@, k);
    let listed = join(names, ", "@);
    let head = "# Due brief — "@ + span.today + ", window "@ + window_label(window)
        + " (through "@ + span.end + ")\n\n"@;
    let line = "Mems: "@ + listed + "\n\n"@;
    assert(occurs_at(listed, mem, at));
    lemma_shown_within(line, "Mems: "@, listed, "\n\n"@, mem);
    lemma_shown_behind(head, line, mem);
    let named = head + line;
    if entries.len() == 0 {
        lemma_shown_further(named, mem, "Nothing open is due in this window.\n"@);
    } else {
        let out = sorted(entries, |a: DueLine, b: DueLine| due_before(a, b));
        let count = decimal(out.len()) + " entr"@ + (if out.len() == 1 {
            "y"@
        } else {
            "ies"@
        }) + " ("@ + decimal(overdue_count(out)) + " overdue)\n\n"@;
        lemma_shown_further(named, mem, count);
        lemma_shown_further(named + count, mem, entries_text(out));
    }
}

/// Each line of a text stands under its prefix.
proof fn lemma_prefixed(ls: Seq<Seq<char>>, prefix: Seq<char>, k: int)
    requires
        0 <= k < ls.len(),
    ensures
        shows(prefixed(ls, prefix), prefix + ls[k] + "\n"@),
    decreases ls.len(),
{
    let head = ls.drop_last();
    let before = prefixed(head, prefix);
    let last = prefix + ls.last() + "\n"@;
    if k < ls.len() - 1 {
        lemma_prefixed(head, prefix, k);
        assert(head[k] == ls[k]);
        lemma_shown_further(before, prefix + ls[k] + "\n"@, last);
    } else {
        lemma_shown_last(before, last);
    }
}

/// The lead section of an entry stands below it, line by line; that of a third
/// party is quoted and said to be one.
pub proof fn law_lead_stands_line_by_line(key: Seq<char>, body: Seq<char>, k: int)
    requires
        0 <= k < lines(body).len(),
    ensures
        shows(lead_text(key, body, true), "    > "@ + lines(body)[k] + "\n"@),
        shows(lead_text(key, body, true), key + " (third-party, quoted):\n"@),
        shows(lead_text(key, body, false), "    "@ + lines(body)[k] + "\n"@),
        shows(lead_text(key, body, false), key + ":\n"@),
{
    lemma_prefixed(lines(body), "    > "@, k);
    lemma_prefixed(lines(body), "    "@, k);
    let quoted = prefixed(lines(body), "    > "@);
    let plain = prefixed(lines(body), "    "@);
    let a = "  - "@ + key + " (third-party, quoted):\n"@;
    let b = "  - "@ + key + ":\n"@;
    lemma_shown_behind(a, quoted, "    > "@ + lines(body)[k] + "\n"@);
    lemma_shown_behind(b, plain, "    "@ + lines(body)[k] + "\n"@);
    lemma_assoc("  - "@, key, " (third-party, quoted):\n"@);
    lemma_assoc("  - "@, key, ":\n"@);
    lemma_shown_last("  - "@, key + " (third-party, quoted):\n"@);
    lemma_shown_last("  - "@, key + ":\n"@);
    lemma_shown_further(a, key + " (third-party, quoted):\n"@, quoted);
    lemma_shown_further(b, key + ":\n"@, plain);
}

// ---------------------------------------------------------------------
// The end of a window
// ---------------------------------------------------------------------

/// The end of a window is written as a date that is read back: so many days
/// later for days; for months and years so many months later, on the same day
/// or on the last of a shorter month.
pub proof fn law_window_end_reads_back(y: int, m: int, d: int, window: DueWindow)
    requires
        on_calendar(y, m, d),
        0 <= shifted(y, m, d, window).0 <= 9999,
    ensures
        ymd_of(end_text(y, m, d, window)) matches Some(e) && on_calendar(e.0, e.1, e.2) && (
        match window {
            DueWindow::Days(n) => day_number(e.0, e.1, e.2) == day_number(y, m, d) + n,
            DueWindow::Months(n) => e.0 * 12 + e.1 == y * 12 + m + n && lands_on(e, d),
            DueWindow::Years(n) => e.0 == y + n && e.1 == m && lands_on(e, d),
        }),
{
    let e = shifted(y, m, d, window);
    match window {
        DueWindow::Days(n) => {
            law_days_later(y, m, d, n);
        },
        DueWindow::Months(n) => {
            law_months_later(y, m, d, n);
        },
        DueWindow::Years(n) => {
            law_months_later(y, m, d, n);
        },
    }
    law_iso_date_reads_back(e.0, e.1, e.2, Seq::empty());
}

/// Whether a date is on a day of the month, or on the last of a month that has
/// no such day.
pub open spec fn lands_on(e: (int, int, int), d: int) -> bool {
    e.2 == d || (e.2 < d && !on_calendar(e.0, e.1, e.2 + 1))
}

} // verus!
