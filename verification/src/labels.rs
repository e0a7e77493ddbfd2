//! Short texts that users read: times, reminders, colors.
use crate::date::two_digits;
use crate::instant::{hour_minute_text, Instant};
use crate::text::{
    chars_of, join, joined, padded_text, parse_unsigned, signed_decimal,
    signed_text, string_from, unsigned_number, views,
};
use vstd::prelude::*;
use vstd::utf8::encode_utf8;

verus! {

/// The local time of day of an instant, such as `09:30`.
pub open spec fn local_time_text(t: Instant) -> Seq<char> {
    hour_minute_text(t.local_clock() / 3600, t.local_clock() / 60 % 60)
}

/// Hour and minute as text.
pub fn hour_minute_label(hour: u32, minute: u32) -> (r: String)
    ensures
        r@ == hour_minute_text(hour as int, minute as int),
{
    let mut r = padded_text(hour as u64, 2);
    r.push(':');
    r.append(padded_text(minute as u64, 2).as_str());
    assert(r@ =~= hour_minute_text(hour as int, minute as int));
    r
}

/// The local time of day of `t`.
pub fn local_time(t: &Instant) -> (r: String)
    ensures
        r@ == local_time_text(*t),
{
    let second: u32 = t.local_second();
    hour_minute_label(second / 3600, second / 60 % 60)
}

/// What a time reads for an event: the time of day, or that it lasts all day.
pub open spec fn time_or_all_day(all_day: bool, t: Instant) -> Seq<char> {
    if all_day {
        "全天"@
    } else {
        local_time_text(t)
    }
}

/// What a time reads for an event.
pub fn time_label(all_day: bool, t: &Instant) -> (r: String)
    ensures
        r@ == time_or_all_day(all_day, *t),
{
    if all_day {
        "全天".to_owned()
    } else {
        local_time(t)
    }
}

/// Minutes in the largest unit that divides them: days, hours or minutes.
pub open spec fn offset_text(minutes: int) -> Seq<char> {
    if minutes % 1440 == 0 {
        signed_decimal(minutes / 1440) + "天"@
    } else if minutes % 60 == 0 {
        signed_decimal(minutes / 60) + "小时"@
    } else {
        signed_decimal(minutes) + "分钟"@
    }
}

/// Minutes in the largest unit that divides them.
pub fn human_offset(minutes: i64) -> (r: String)
    ensures
        r@ == offset_text(minutes as int),
{
    if minutes.checked_rem_euclid(1440).unwrap() == 0 {
        let mut r = signed_text(minutes.checked_div_euclid(1440).unwrap());
        r.append("天");
        r
    } else if minutes.checked_rem_euclid(60).unwrap() == 0 {
        let mut r = signed_text(minutes.checked_div_euclid(60).unwrap());
        r.append("小时");
        r
    } else {
        let mut r = signed_text(minutes);
        r.append("分钟");
        r
    }
}

/// What an event's list shows of its reminders: the first one.
pub open spec fn reminder_text(values: Seq<i64>) -> Seq<char> {
    if values.len() == 0 {
        ""@
    } else {
        "提前"@ + offset_text(values[0] as int)
    }
}

/// What an event's list shows of its reminders.
pub fn reminder_summary(values: &Vec<i64>) -> (r: String)
    ensures
        r@ == reminder_text(values@),
{
    if values.len() == 0 {
        "".to_owned()
    } else {
        let mut r = "提前".to_owned();
        r.append(human_offset(values[0]).as_str());
        r
    }
}

/// The texts that are not empty.
pub open spec fn filled(parts: Seq<Seq<char>>) -> Seq<Seq<char>> {
    parts.filter(|part: Seq<char>| part.len() > 0)
}

/// The texts that are not empty, with `sep` between neighbours.
pub fn join_filled(parts: &Vec<String>, sep: &str) -> (r: String)
    ensures
        r@ == joined(filled(views(parts@)), sep@),
{
    let ghost all = views(parts@);
    let mut kept: Vec<String> = Vec::new();
    let mut i: usize = 0;
    assert(all.take(0).filter(|part: Seq<char>| part.len() > 0) =~= Seq::<Seq<char>>::empty()) by {
        reveal(Seq::filter);
    }
    assert(views(kept@) =~= Seq::<Seq<char>>::empty());
    while i < parts.len()
        invariant
            all == views(parts@),
            i <= parts@.len(),
            views(kept@) == filled(all.take(i as int)),
        decreases parts@.len() - i,
    {
        let ghost before = kept@;
        proof {
            let next = all.take(i + 1);
            assert(next.drop_last() =~= all.take(i as int));
            assert(next.last() == parts@[i as int]@);
            reveal(Seq::filter);
        }
        if !parts[i].as_str().is_empty() {
            kept.push(parts[i].clone());
            assert(views(kept@) =~= views(before).push(all[i as int]));
        }
        i = i + 1;
    }
    assert(all.take(all.len() as int) =~= all);
    join(&kept, sep)
}

/// A color as red, green and blue.
pub type Rgb = (u8, u8, u8);

/// The color that stands in for one that cannot be read.
pub open spec fn fallback_color() -> Rgb {
    (104u8, 120u8, 214u8)
}

/// A text without number signs at its beginning.
pub open spec fn without_marks(s: Seq<char>) -> Seq<char>
    decreases s.len(),
{
    if s.len() > 0 && s[0] == '#' {
        without_marks(s.subrange(1, s.len() as int))
    } else {
        s
    }
}

/// The color that a text such as `#6878d6` names.
pub open spec fn color_of(s: Seq<char>) -> Rgb {
    let digits = without_marks(s);
    match unsigned_number(digits, 16, u32::MAX as int) {
        Some(rgb) => if encode_utf8(digits).len() == 6 {
            ((rgb / 65536 % 256) as u8, (rgb / 256 % 256) as u8, (rgb % 256) as u8)
        } else {
            fallback_color()
        },
        None => fallback_color(),
    }
}

/// The color that a text such as `#6878d6` names.
pub fn parse_color(value: &str) -> (r: Rgb)
    ensures
        r == color_of(value@),
{
    let chars = chars_of(value);
    let n: usize = chars.len();
    let mut i: usize = 0;
    assert(chars@.subrange(0, n as int) =~= value@);
    while i < n && chars[i] == '#'
        invariant
            i <= n,
            n == chars@.len(),
            without_marks(value@) == without_marks(chars@.subrange(i as int, n as int)),
        decreases n - i,
    {
        let ghost here = chars@.subrange(i as int, n as int);
        assert(here.subrange(1, here.len() as int) =~= chars@.subrange(i + 1, n as int));
        i = i + 1;
    }
    let digits = string_from(&chars, i, n);
    if digits.as_str().as_bytes().len() == 6 {
        if let Some(rgb) = parse_unsigned(digits.as_str(), 16, u32::MAX as u64) {
            return ((rgb / 65536 % 256) as u8, (rgb / 256 % 256) as u8, (rgb % 256) as u8);
        }
    }
    (104, 120, 214)
}

/// A number as digits, two at least.
pub open spec fn two_digit_text(n: int) -> Seq<char> {
    if n < 0 {
        signed_decimal(n)
    } else {
        two_digits(n)
    }
}

/// A number as digits, two at least.
pub fn two_digit_label(n: i32) -> (r: String)
    ensures
        r@ == two_digit_text(n as int),
{
    if n < 0 {
        signed_text(n as i64)
    } else {
        padded_text(n as u64, 2)
    }
}

/// The time of day that users read is the hour and the minute in which the instant lies.
pub proof fn a_local_time_names_its_minute(t: Instant, hour: int, minute: int)
    requires
        0 <= hour < 24,
        0 <= minute < 60,
        hour * 3600 + minute * 60 <= t.local_clock() < hour * 3600 + minute * 60 + 60,
    ensures
        local_time_text(t) == two_digits(hour) + seq![':'] + two_digits(minute),
        time_or_all_day(false, t) == local_time_text(t),
        time_or_all_day(true, t) == seq!['全', '天'],
{
    reveal_strlit("全天");
    assert("全天"@ =~= seq!['全', '天']);
    let clock = t.local_clock();
    assert(clock / 3600 == hour);
    assert(clock / 60 % 60 == minute);
}

/// Minutes are told in the largest unit that leaves no rest: the number of days, hours or minutes
/// that is written makes up all of them.
pub proof fn an_offset_is_told_in_full(n: int)
    ensures
        offset_text(n * 1440) == signed_decimal(n) + seq!['天'],
        n % 24 != 0 ==> offset_text(n * 60) == signed_decimal(n) + seq!['小', '时'],
        n % 60 != 0 ==> offset_text(n) == signed_decimal(n) + seq!['分', '钟'],
{
    reveal_strlit("天");
    reveal_strlit("小时");
    reveal_strlit("分钟");
    assert("天"@ =~= seq!['天']);
    assert("小时"@ =~= seq!['小', '时']);
    assert("分钟"@ =~= seq!['分', '钟']);
    assert((n * 1440) % 1440 == 0 && (n * 1440) / 1440 == n);
    assert((n * 60) % 60 == 0 && (n * 60) / 60 == n);
    assert(n % 24 != 0 ==> (n * 60) % 1440 != 0);
    assert(n % 60 != 0 ==> n % 1440 != 0);
}

/// The list of an event tells its first reminder and no other, and nothing when there is none.
pub proof fn the_first_reminder_is_told(values: Seq<i64>, more: Seq<i64>)
    requires
        values.len() > 0,
    ensures
        reminder_text(values + more) == reminder_text(values),
        reminder_text(values) == seq!['提', '前'] + offset_text(values[0] as int),
        reminder_text(Seq::<i64>::empty()).len() == 0,
{
    reveal_strlit("提前");
    reveal_strlit("");
    assert("提前"@ =~= seq!['提', '前']);
    assert((values + more)[0] == values[0]);
}

/// A color is made of the three bytes of its number, red first; a number sign in front of it makes
/// no difference, and what is no such number is shown in one color.
pub proof fn a_color_is_its_three_bytes(s: Seq<char>, n: int)
    ensures
        color_of(seq!['#'] + s) == color_of(s),
        unsigned_number(without_marks(s), 16, u32::MAX as int) == Some(n) && encode_utf8(
            without_marks(s),
        ).len() == 6 && 0 <= n < 16_777_216 ==> color_of(s).0 * 65_536 + color_of(s).1 * 256
            + color_of(s).2 == n,
        unsigned_number(without_marks(s), 16, u32::MAX as int) is None ==> color_of(s) == (
            104u8,
            120u8,
            214u8,
        ),
{
    let t = seq!['#'] + s;
    assert(t.subrange(1, t.len() as int) =~= s);
    assert(without_marks(t) == without_marks(s));
}

} // verus!
