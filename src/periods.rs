//! Decoding the day, time and room columns of a row into periods.
use vstd::prelude::*;
use crate::model::{DayOfWeek, Period, PeriodView, periods_view};
use crate::text::{
    all_digits, digits_value, is_digit, is_space, trim_start,
    chars_view, parse_unsigned, parse_unsigned_chars, split, split_chars, string_of, trim,
    trim_chars,
};

verus! {

/// The day named by a (trimmed) three-letter abbreviation.
pub open spec fn day_of(t: Seq<char>) -> DayOfWeek {
    if t == seq!['M', 'o', 'n'] {
        DayOfWeek::Monday
    } else if t == seq!['T', 'u', 'e'] {
        DayOfWeek::Tuesday
    } else if t == seq!['W', 'e', 'd'] {
        DayOfWeek::Wednesday
    } else if t == seq!['T', 'h', 'u'] {
        DayOfWeek::Thursday
    } else if t == seq!['F', 'r', 'i'] {
        DayOfWeek::Friday
    } else {
        DayOfWeek::Unknown
    }
}

/// An hour or minute field.
pub open spec fn clock_field(s: Seq<char>) -> Option<u8> {
    match parse_unsigned(trim(s), 255) {
        Some(v) => Some(v as u8),
        None => Option::None,
    }
}

/// A time range `H:MM-H:MM` as start hour, start minute, end hour and end
/// minute; pieces after the second are ignored, and each piece is trimmed.
pub open spec fn time_range(t: Seq<char>) -> Option<(u8, u8, u8, u8)> {
    let halves = split(trim(t), seq!['-']);
    if halves.len() < 2 {
        Option::None
    } else {
        let a = split(trim(halves[0]), seq![':']);
        let b = split(trim(halves[1]), seq![':']);
        if a.len() < 2 || b.len() < 2 {
            Option::None
        } else {
            match (clock_field(a[0]), clock_field(a[1]), clock_field(b[0]), clock_field(b[1])) {
                (Some(sh), Some(sm), Some(eh), Some(em)) => Some((sh, sm, eh, em)),
                _ => Option::None,
            }
        }
    }
}

/// The period that one day / time / room triple stands for, if it is a
/// valid one.
pub open spec fn triple_period(day: Seq<char>, time: Seq<char>, room: Seq<char>) -> Option<
    PeriodView,
> {
    let d = day_of(trim(day));
    if trim(time).len() == 0 || trim(room).len() == 0 || d == DayOfWeek::Unknown {
        Option::None
    } else {
        match time_range(time) {
            Some((sh, sm, eh, em)) => Some(
                PeriodView {
                    day: d,
                    room: trim(room),
                    start_hour: sh,
                    start_minute: sm,
                    end_hour: eh,
                    end_minute: em,
                },
            ),
            None => Option::None,
        }
    }
}

/// The number of triples that three parallel columns hold.
pub open spec fn triple_count(
    days: Seq<Seq<char>>,
    times: Seq<Seq<char>>,
    rooms: Seq<Seq<char>>,
) -> nat {
    if days.len() <= times.len() && days.len() <= rooms.len() {
        days.len()
    } else if times.len() <= rooms.len() {
        times.len()
    } else {
        rooms.len()
    }
}

/// The periods of the first `n` triples, invalid triples left out.
pub open spec fn collect_periods(
    days: Seq<Seq<char>>,
    times: Seq<Seq<char>>,
    rooms: Seq<Seq<char>>,
    n: nat,
) -> Seq<PeriodView>
    decreases n,
{
    if n == 0 {
        Seq::empty()
    } else {
        let prev = collect_periods(days, times, rooms, (n - 1) as nat);
        let i = n - 1;
        match triple_period(days[i], times[i], rooms[i]) {
            Some(p) => prev.push(p),
            None => prev,
        }
    }
}

/// `s` with every period dropped whose day equals the day of the period
/// right before it.
pub open spec fn dedup_days(s: Seq<PeriodView>) -> Seq<PeriodView>
    decreases s.len(),
{
    if s.len() <= 1 {
        s
    } else {
        let d = dedup_days(s.drop_last());
        if s.last().day == s[s.len() - 2].day {
            d
        } else {
            d.push(s.last())
        }
    }
}

/// The periods that three column cells hold, separated by `sep`.
pub open spec fn cell_periods(
    days: Seq<char>,
    times: Seq<char>,
    rooms: Seq<char>,
    sep: Seq<char>,
) -> Seq<PeriodView> {
    let d = split(days, sep);
    let t = split(times, sep);
    let r = split(rooms, sep);
    dedup_days(collect_periods(d, t, r, triple_count(d, t, r)))
}

fn eq3(t: &Vec<char>, a: char, b: char, c: char) -> (r: bool)
    ensures
        r == (t@ == seq![a, b, c]),
{
    if t.len() == 3 && t[0] == a && t[1] == b && t[2] == c {
        assert(t@ =~= seq![a, b, c]);
        true
    } else {
        false
    }
}

/// The day named by `t`, after trimming.
pub fn parse_day(t: &Vec<char>) -> (r: DayOfWeek)
    ensures
        r == day_of(trim(t@)),
{
    let t = trim_chars(t);
    if eq3(&t, 'M', 'o', 'n') {
        DayOfWeek::Monday
    } else if eq3(&t, 'T', 'u', 'e') {
        DayOfWeek::Tuesday
    } else if eq3(&t, 'W', 'e', 'd') {
        DayOfWeek::Wednesday
    } else if eq3(&t, 'T', 'h', 'u') {
        DayOfWeek::Thursday
    } else if eq3(&t, 'F', 'r', 'i') {
        DayOfWeek::Friday
    } else {
        DayOfWeek::Unknown
    }
}

fn parse_clock_field(s: &Vec<char>) -> (r: Option<u8>)
    ensures
        r == clock_field(s@),
{
    let t = trim_chars(s);
    match parse_unsigned_chars(&t, 255) {
        Some(v) => Some(v as u8),
        None => None,
    }
}

/// Parses a time range `H:MM-H:MM` into start hour, start minute, end hour
/// and end minute.
pub fn parse_time_range(t: &Vec<char>) -> (r: Option<(u8, u8, u8, u8)>)
    ensures
        r == time_range(t@),
{
    let tt = trim_chars(t);
    let dash = vec!['-'];
    assert(dash@ =~= seq!['-']);
    let halves = split_chars(&tt, &dash);
    if halves.len() < 2 {
        return None;
    }
    let a0 = trim_chars(&halves[0]);
    let b0 = trim_chars(&halves[1]);
    let colon = vec![':'];
    assert(colon@ =~= seq![':']);
    let a = split_chars(&a0, &colon);
    let b = split_chars(&b0, &colon);
    if a.len() < 2 || b.len() < 2 {
        return None;
    }
    assert(chars_view(a@)[0] == a@[0]@ && chars_view(a@)[1] == a@[1]@);
    assert(chars_view(b@)[0] == b@[0]@ && chars_view(b@)[1] == b@[1]@);
    match (
        parse_clock_field(&a[0]),
        parse_clock_field(&a[1]),
        parse_clock_field(&b[0]),
        parse_clock_field(&b[1]),
    ) {
        (Some(sh), Some(sm), Some(eh), Some(em)) => Some((sh, sm, eh, em)),
        _ => None,
    }
}

/// The period that a day / time / room triple stands for, if it is valid.
pub fn decode_triple(day: &Vec<char>, time: &Vec<char>, room: &Vec<char>) -> (r: Option<Period>)
    ensures
        match r {
            Some(p) => triple_period(day@, time@, room@) == Some(p@),
            None => triple_period(day@, time@, room@) is None,
        },
{
    let d = parse_day(day);
    let tt = trim_chars(time);
    let rt = trim_chars(room);
    if tt.len() == 0 || rt.len() == 0 || d == DayOfWeek::Unknown {
        return None;
    }
    match parse_time_range(time) {
        Some((sh, sm, eh, em)) => Some(
            Period {
                day: d,
                room: string_of(&rt),
                start_hour: sh,
                start_minute: sm,
                end_hour: eh,
                end_minute: em,
            },
        ),
        None => None,
    }
}

fn copy_period(p: &Period) -> (r: Period)
    ensures
        r@ == p@,
{
    Period {
        day: p.day,
        room: p.room.clone(),
        start_hour: p.start_hour,
        start_minute: p.start_minute,
        end_hour: p.end_hour,
        end_minute: p.end_minute,
    }
}

/// Drops every period whose day equals the day of the period right before it.
pub fn dedup_periods(s: Vec<Period>) -> (r: Vec<Period>)
    ensures
        periods_view(r@) == dedup_days(periods_view(s@)),
{
    let ghost sv = periods_view(s@);
    let n = s.len();
    let mut out: Vec<Period> = Vec::new();
    let mut i: usize = 0;
    assert(sv.subrange(0, 0) =~= Seq::<PeriodView>::empty());
    assert(periods_view(out@) =~= Seq::<PeriodView>::empty());
    while i < n
        invariant
            i <= n == s@.len(),
            sv == periods_view(s@),
            periods_view(out@) == dedup_days(sv.subrange(0, i as int)),
        decreases n - i,
    {
        let ghost pre = sv.subrange(0, i as int);
        let ghost nxt = sv.subrange(0, i + 1);
        assert(nxt.drop_last() =~= pre);
        let ghost before = out@;
        if i == 0 || s[i].day != s[i - 1].day {
            out.push(copy_period(&s[i]));
            assert(periods_view(out@) =~= periods_view(before).push(sv[i as int]));
        }
        i = i + 1;
    }
    assert(sv.subrange(0, n as int) =~= sv);
    out
}

/// The periods that three column cells hold, one value per line, the lines
/// separated by `sep`: triples that are not valid left out, then every
/// period dropped whose day repeats the one right before it.
pub fn decode_periods(days: &Vec<char>, times: &Vec<char>, rooms: &Vec<char>, sep: &Vec<char>) -> (r:
    Vec<Period>)
    requires
        sep@.len() > 0,
    ensures
        periods_view(r@) == cell_periods(days@, times@, rooms@, sep@),
{
    let d = split_chars(days, sep);
    let t = split_chars(times, sep);
    let r = split_chars(rooms, sep);
    let ghost dv = chars_view(d@);
    let ghost tv = chars_view(t@);
    let ghost rv = chars_view(r@);
    let n: usize = if d.len() <= t.len() && d.len() <= r.len() {
        d.len()
    } else if t.len() <= r.len() {
        t.len()
    } else {
        r.len()
    };
    assert(n == triple_count(dv, tv, rv));
    let mut out: Vec<Period> = Vec::new();
    let mut i: usize = 0;
    assert(periods_view(out@) =~= Seq::<PeriodView>::empty());
    while i < n
        invariant
            i <= n,
            n <= d@.len() && n <= t@.len() && n <= r@.len(),
            dv == chars_view(d@) && tv == chars_view(t@) && rv == chars_view(r@),
            periods_view(out@) == collect_periods(dv, tv, rv, i as nat),
        decreases n - i,
    {
        let ghost before = out@;
        assert(dv[i as int] == d@[i as int]@ && tv[i as int] == t@[i as int]@ && rv[i as int]
            == r@[i as int]@);
        match decode_triple(&d[i], &t[i], &r[i]) {
            Some(p) => {
                out.push(p);
                assert(periods_view(out@) =~= periods_view(before).push(p@));
            },
            None => {},
        }
        i = i + 1;
    }
    dedup_periods(out)
}

proof fn lemma_trim_digits(s: Seq<char>)
    requires
        s.len() > 0,
        is_digit(s[0]),
        is_digit(s.last()),
    ensures
        trim(s) == s,
{
    assert(!is_space(s[0]));
    assert(trim_start(s) == s);
    assert(!is_space(s.last()));
}

proof fn lemma_split_no_sep(x: Seq<char>, c: char)
    requires
        forall|i: int| 0 <= i < x.len() ==> x[i] != c,
    ensures
        split(x, seq![c]) == seq![x],
    decreases x.len(),
{
    if x.len() > 0 {
        assert(x.subrange(0, 1) != seq![c]) by {
            assert(x.subrange(0, 1)[0] != c);
        }
        lemma_split_no_sep(x.drop_first(), c);
        assert(seq![x[0]] + x.drop_first() =~= x);
        assert(split(x, seq![c]) =~= seq![x]);
    }
}

proof fn lemma_split_first_sep(x: Seq<char>, c: char, y: Seq<char>)
    requires
        forall|i: int| 0 <= i < x.len() ==> x[i] != c,
    ensures
        split(x + seq![c] + y, seq![c]) == seq![x] + split(y, seq![c]),
    decreases x.len(),
{
    let s = x + seq![c] + y;
    if x.len() == 0 {
        assert(s.subrange(0, 1) =~= seq![c]);
        assert(s.subrange(1, s.len() as int) =~= y);
        assert(x =~= Seq::<char>::empty());
    } else {
        assert(s.subrange(0, 1) != seq![c]) by {
            assert(s.subrange(0, 1)[0] != c);
        }
        assert(s.drop_first() =~= x.drop_first() + seq![c] + y);
        lemma_split_first_sep(x.drop_first(), c, y);
        assert(seq![x[0]] + x.drop_first() =~= x);
        assert(split(s, seq![c]) =~= seq![x] + split(y, seq![c]));
    }
}

proof fn lemma_clock_field_digits(a: Seq<char>)
    requires
        a.len() > 0,
        all_digits(a),
        digits_value(a) <= 255,
    ensures
        clock_field(a) == Some(digits_value(a) as u8),
{
    lemma_trim_digits(a);
}

/// The time of day `h:m` written as digits: no `-` and digits at both ends.
proof fn lemma_clock_shape(h: Seq<char>, m: Seq<char>)
    requires
        h.len() > 0 && all_digits(h),
        m.len() > 0 && all_digits(m),
    ensures
        forall|i: int| 0 <= i < (h + seq![':'] + m).len() ==> (h + seq![':'] + m)[i] != '-',
        forall|i: int| 0 <= i < h.len() ==> h[i] != ':',
        is_digit((h + seq![':'] + m)[0]),
        is_digit((h + seq![':'] + m).last()),
        split(h + seq![':'] + m, seq![':']) == seq![h, m],
{
    let s = h + seq![':'] + m;
    assert forall|i: int| 0 <= i < s.len() implies s[i] != '-' by {
        if i < h.len() {
            assert(is_digit(h[i]));
        } else if i > h.len() {
            assert(s[i] == m[i - h.len() - 1]);
            assert(is_digit(m[i - h.len() - 1]));
        }
    }
    assert forall|i: int| 0 <= i < h.len() implies h[i] != ':' by {
        assert(is_digit(h[i]));
    }
    assert(s[0] == h[0]);
    assert(s.last() == m.last());
    assert(is_digit(m[m.len() - 1]));
    lemma_split_first_sep(h, ':', m);
    assert forall|i: int| 0 <= i < m.len() implies m[i] != ':' by {
        assert(is_digit(m[i]));
    }
    lemma_split_no_sep(m, ':');
    assert(seq![h] + seq![m] =~= seq![h, m]);
}

/// A well-formed time range `H:MM-H:MM`, each group one or more decimal
/// digits, reads back as the four numbers that its digit groups spell.
pub proof fn lemma_time_range_round_trip(
    start_hour: Seq<char>,
    start_minute: Seq<char>,
    end_hour: Seq<char>,
    end_minute: Seq<char>,
)
    requires
        start_hour.len() > 0 && all_digits(start_hour) && digits_value(start_hour) <= 255,
        start_minute.len() > 0 && all_digits(start_minute) && digits_value(start_minute) <= 255,
        end_hour.len() > 0 && all_digits(end_hour) && digits_value(end_hour) <= 255,
        end_minute.len() > 0 && all_digits(end_minute) && digits_value(end_minute) <= 255,
    ensures
        time_range(
            start_hour + seq![':'] + start_minute + seq!['-'] + end_hour + seq![':'] + end_minute,
        ) == Some(
            (
                digits_value(start_hour) as u8,
                digits_value(start_minute) as u8,
                digits_value(end_hour) as u8,
                digits_value(end_minute) as u8,
            ),
        ),
{
    let a = start_hour + seq![':'] + start_minute;
    let b = end_hour + seq![':'] + end_minute;
    let t = start_hour + seq![':'] + start_minute + seq!['-'] + end_hour + seq![':'] + end_minute;
    assert(t =~= a + seq!['-'] + b);
    lemma_clock_shape(start_hour, start_minute);
    lemma_clock_shape(end_hour, end_minute);
    assert(t[0] == a[0]);
    assert(t.last() == b.last());
    lemma_trim_digits(t);
    lemma_split_first_sep(a, '-', b);
    lemma_split_no_sep(b, '-');
    assert(split(t, seq!['-']) =~= seq![a, b]);
    lemma_trim_digits(a);
    lemma_trim_digits(b);
    lemma_clock_field_digits(start_hour);
    lemma_clock_field_digits(start_minute);
    lemma_clock_field_digits(end_hour);
    lemma_clock_field_digits(end_minute);
}

/// A triple with an empty room, an empty time or an unrecognised day adds no
/// period, whatever the other triples of the row hold.
pub proof fn lemma_invalid_triple_dropped(
    days: Seq<Seq<char>>,
    times: Seq<Seq<char>>,
    rooms: Seq<Seq<char>>,
    i: nat,
)
    requires
        trim(rooms[i as int]).len() == 0 || trim(times[i as int]).len() == 0 || day_of(
            trim(days[i as int]),
        ) == DayOfWeek::Unknown,
    ensures
        triple_period(days[i as int], times[i as int], rooms[i as int]) is None,
        collect_periods(days, times, rooms, i + 1) == collect_periods(days, times, rooms, i),
{
}

/// Every collected period has a recognised day and a non-empty room.
pub proof fn lemma_collected_periods_valid(
    days: Seq<Seq<char>>,
    times: Seq<Seq<char>>,
    rooms: Seq<Seq<char>>,
    n: nat,
)
    ensures
        forall|k: int|
            0 <= k < collect_periods(days, times, rooms, n).len() ==> {
                let p = #[trigger] collect_periods(days, times, rooms, n)[k];
                p.day != DayOfWeek::Unknown && p.room.len() > 0
            },
    decreases n,
{
    if n > 0 {
        lemma_collected_periods_valid(days, times, rooms, (n - 1) as nat);
        let prev = collect_periods(days, times, rooms, (n - 1) as nat);
        assert forall|k: int| 0 <= k < collect_periods(days, times, rooms, n).len() implies {
            let p = #[trigger] collect_periods(days, times, rooms, n)[k];
            p.day != DayOfWeek::Unknown && p.room.len() > 0
        } by {
            if k < prev.len() {
                assert(collect_periods(days, times, rooms, n)[k] == prev[k]);
            }
        }
    }
}

proof fn lemma_dedup_ends(s: Seq<PeriodView>)
    requires
        s.len() > 0,
    ensures
        dedup_days(s).len() > 0,
        dedup_days(s)[0] == s[0],
        dedup_days(s).last().day == s.last().day,
    decreases s.len(),
{
    if s.len() > 1 {
        lemma_dedup_ends(s.drop_last());
        assert(s.drop_last()[0] == s[0]);
        assert(s.drop_last().last() == s[s.len() - 2]);
    }
}

proof fn lemma_dedup_members(s: Seq<PeriodView>)
    ensures
        forall|k: int|
            0 <= k < dedup_days(s).len() ==> exists|j: int|
                0 <= j < s.len() && #[trigger] dedup_days(s)[k] == s[j],
    decreases s.len(),
{
    if s.len() > 1 {
        let p = s.drop_last();
        lemma_dedup_members(p);
        let d = dedup_days(p);
        assert forall|k: int| 0 <= k < dedup_days(s).len() implies exists|j: int|
            0 <= j < s.len() && #[trigger] dedup_days(s)[k] == s[j] by {
            if k < d.len() {
                assert(dedup_days(s)[k] == d[k]);
                let j = choose|j: int| 0 <= j < p.len() && d[k] == p[j];
                assert(s[j] == p[j]);
            } else {
                assert(dedup_days(s)[k] == s[s.len() - 1]);
            }
        }
    }
}

proof fn lemma_dedup_no_repeat(s: Seq<PeriodView>)
    ensures
        forall|i: int|
            0 < i < dedup_days(s).len() ==> (#[trigger] dedup_days(s)[i]).day != dedup_days(
                s,
            )[i - 1].day,
    decreases s.len(),
{
    if s.len() > 1 {
        let p = s.drop_last();
        lemma_dedup_no_repeat(p);
        lemma_dedup_ends(p);
        let d = dedup_days(p);
        let e = dedup_days(s);
        assert(p.last() == s[s.len() - 2]);
        if s.last().day == s[s.len() - 2].day {
            assert(e == d);
        } else {
            assert(e == d.push(s.last()));
            assert forall|i: int| 0 < i < e.len() implies (#[trigger] e[i]).day != e[i - 1].day by {
                if i < d.len() {
                    assert(e[i] == d[i]);
                    assert(e[i - 1] == d[i - 1]);
                } else {
                    assert(e[i - 1] == d.last());
                }
            }
        }
    }
}

/// Collapsing leaves no two neighbouring periods on the same day, and keeps
/// only periods of the input, the first one among them.
pub proof fn lemma_dedup_days(s: Seq<PeriodView>)
    ensures
        s.len() > 0 ==> dedup_days(s).len() > 0 && dedup_days(s)[0] == s[0],
        forall|i: int|
            0 < i < dedup_days(s).len() ==> (#[trigger] dedup_days(s)[i]).day != dedup_days(
                s,
            )[i - 1].day,
        forall|k: int|
            0 <= k < dedup_days(s).len() ==> exists|j: int|
                0 <= j < s.len() && #[trigger] dedup_days(s)[k] == s[j],
{
    lemma_dedup_members(s);
    lemma_dedup_no_repeat(s);
    if s.len() > 0 {
        lemma_dedup_ends(s);
    }
}

/// Every period that three cells decode to has a recognised day and a
/// non-empty room, and no two neighbouring periods share a day.
pub proof fn lemma_cell_periods_valid(
    days: Seq<char>,
    times: Seq<char>,
    rooms: Seq<char>,
    sep: Seq<char>,
)
    ensures
        forall|k: int|
            0 <= k < cell_periods(days, times, rooms, sep).len() ==> {
                let p = #[trigger] cell_periods(days, times, rooms, sep)[k];
                p.day != DayOfWeek::Unknown && p.room.len() > 0
            },
        forall|i: int|
            0 < i < cell_periods(days, times, rooms, sep).len() ==> (#[trigger] cell_periods(
                days,
                times,
                rooms,
                sep,
            )[i]).day != cell_periods(days, times, rooms, sep)[i - 1].day,
{
    let d = split(days, sep);
    let t = split(times, sep);
    let r = split(rooms, sep);
    let all = collect_periods(d, t, r, triple_count(d, t, r));
    lemma_collected_periods_valid(d, t, r, triple_count(d, t, r));
    lemma_dedup_days(all);
    assert forall|k: int| 0 <= k < cell_periods(days, times, rooms, sep).len() implies {
        let p = #[trigger] cell_periods(days, times, rooms, sep)[k];
        p.day != DayOfWeek::Unknown && p.room.len() > 0
    } by {
        let j = choose|j: int| 0 <= j < all.len() && dedup_days(all)[k] == all[j];
        assert(all[j] == collect_periods(d, t, r, triple_count(d, t, r))[j]);
    }
}

} // verus!
