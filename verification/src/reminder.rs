//! `remind`: reading a delay such as `1h15m` and confirming the reminder.
use vstd::prelude::*;

use crate::external::{find_matches, mono_line_safe, push_mono_line_safe, regex_find_iter};
use crate::text::{char_views, join, join_chars, append, append_str, chars_of, decimal, parse_i64, parse_i64_chars, render_u64, string_of};

verus! {

/// The pattern that picks the amounts out of a delay: digits and a unit.
pub const TIME_PATTERN: &'static str = "(\\d+)([dhms])";

/// The largest number of whole seconds a delay may hold either way.
pub open spec fn seconds_bound() -> int {
    9223372036854775
}

/// Whether `c` names a unit: days, hours, minutes or seconds.
pub open spec fn is_unit(c: char) -> bool {
    c == 'd' || c == 'h' || c == 'm' || c == 's'
}

/// The seconds in one of the unit `c`.
pub open spec fn unit_seconds(c: char) -> int {
    if c == 'd' {
        86400
    } else if c == 'h' {
        3600
    } else if c == 'm' {
        60
    } else {
        1
    }
}

/// The most of the unit `c` that one delay counts: a week of days, a week
/// of hours, two days of minutes, an hour of seconds.
pub open spec fn unit_cap(c: char) -> int {
    if c == 'd' {
        7
    } else if c == 'h' {
        168
    } else if c == 'm' {
        2880
    } else {
        3600
    }
}

/// Reads the delay segments `segs` (each an amount followed by its unit
/// letter), counting only the first segment of each unit, with `seen` the
/// units counted so far and `acc` the seconds so far. `Some(Ok(t))`: the
/// delay is `t` seconds. `Some(Err(()))`: a segment has an unknown unit or
/// an amount that is not a number. `None`: an amount or the total leaves
/// the range a delay can hold.
pub open spec fn scan_time(segs: Seq<Seq<char>>, seen: Set<char>, acc: int) -> Option<Result<int, ()>>
    decreases segs.len(),
{
    if segs.len() == 0 {
        Some(Ok(acc))
    } else {
        let seg = segs[0];
        let c = seg.last();
        if !is_unit(c) {
            Some(Err(()))
        } else if seen.contains(c) {
            scan_time(segs.drop_first(), seen, acc)
        } else {
            match parse_i64(seg.drop_last()) {
                None => Some(Err(())),
                Some(v) => {
                    let n = if v > unit_cap(c) {
                        unit_cap(c)
                    } else {
                        v
                    };
                    let term = n * unit_seconds(c);
                    if term < -seconds_bound() || term > seconds_bound() || acc + term
                        < -seconds_bound() || acc + term > seconds_bound() {
                        None
                    } else {
                        scan_time(segs.drop_first(), seen.insert(c), acc + term)
                    }
                },
            }
        }
    }
}

/// The delay read from `segs` from the start.
pub open spec fn delay_of(segs: Seq<Seq<char>>) -> Option<Result<int, ()>> {
    scan_time(segs, Set::empty(), 0)
}

/// The most seconds the units in `seen` can add to a delay.
pub open spec fn cap_total(seen: Set<char>) -> int {
    (if seen.contains('d') { 604800int } else { 0int }) + (if seen.contains('h') {
        604800int
    } else {
        0int
    }) + (if seen.contains('m') { 172800int } else { 0int }) + (if seen.contains('s') {
        3600int
    } else {
        0int
    })
}

/// Whether each segment of `segs` is an amount of decimal digits followed
/// by one more character, as the time pattern picks them out.
pub open spec fn digit_segments(segs: Seq<Seq<char>>) -> bool {
    forall|i: int|
        0 <= i < segs.len() ==> #[trigger] segs[i].len() >= 2 && crate::text::all_digits(
            segs[i].drop_last(),
        )
}

proof fn lemma_scan_bounds(segs: Seq<Seq<char>>, seen: Set<char>, acc: int)
    requires
        acc <= cap_total(seen),
    ensures
        scan_time(segs, seen, acc) matches Some(Ok(t)) ==> t <= 1386000,
        digit_segments(segs) && acc >= 0 ==> (scan_time(segs, seen, acc) matches Some(Ok(t))
            ==> t >= 0),
    decreases segs.len(),
{
    if segs.len() > 0 {
        let seg = segs[0];
        let c = seg.last();
        assert(digit_segments(segs) ==> digit_segments(segs.drop_first())) by {
            if digit_segments(segs) {
                assert forall|i: int| 0 <= i < segs.drop_first().len() implies #[trigger] segs.drop_first()[i].len()
                    >= 2 && crate::text::all_digits(segs.drop_first()[i].drop_last()) by {
                    assert(segs.drop_first()[i] == segs[i + 1]);
                }
            }
        }
        if is_unit(c) {
            if seen.contains(c) {
                lemma_scan_bounds(segs.drop_first(), seen, acc);
            } else {
                match parse_i64(seg.drop_last()) {
                    None => {},
                    Some(v) => {
                        let n = if v > unit_cap(c) {
                            unit_cap(c)
                        } else {
                            v
                        };
                        let term = n * unit_seconds(c);
                        assert(term <= unit_cap(c) * unit_seconds(c)) by (nonlinear_arith)
                            requires
                                term == n * unit_seconds(c),
                                n <= unit_cap(c),
                                unit_seconds(c) > 0,
                        ;
                        assert(cap_total(seen.insert(c)) == cap_total(seen) + unit_cap(c)
                            * unit_seconds(c));
                        if digit_segments(segs) && acc >= 0 {
                            let body = seg.drop_last();
                            assert(segs[0].len() >= 2 && crate::text::all_digits(body));
                            assert(body[0] != '+' && body[0] != '-') by {
                                assert(crate::text::is_digit(body[0]));
                            }
                            crate::text::lemma_digits_prefix(body, body.len() as int);
                            assert(body.take(body.len() as int) == body);
                            assert(v >= 0);
                            assert(term >= 0) by (nonlinear_arith)
                                requires
                                    term == n * unit_seconds(c),
                                    n >= 0,
                                    unit_seconds(c) > 0,
                            ;
                        }
                        lemma_scan_bounds(segs.drop_first(), seen.insert(c), acc + term);
                    },
                }
            }
        }
    }
}

/// The first segment of `segs` whose unit is `u`, if there is one.
pub open spec fn first_of(segs: Seq<Seq<char>>, u: char) -> Option<Seq<char>>
    decreases segs.len(),
{
    if segs.len() == 0 {
        None
    } else if segs[0].last() == u {
        Some(segs[0])
    } else {
        first_of(segs.drop_first(), u)
    }
}

/// How many of the unit `u` a delay counts: the amount of the first
/// segment of that unit, capped, or none when there is no such segment.
pub open spec fn amount_of(segs: Seq<Seq<char>>, u: char) -> int {
    match first_of(segs, u) {
        None => 0,
        Some(seg) => match parse_i64(seg.drop_last()) {
            None => 0,
            Some(v) => if v > unit_cap(u) {
                unit_cap(u)
            } else {
                v
            },
        },
    }
}

/// The seconds that the units not in `seen` add up to.
pub open spec fn unseen_seconds(segs: Seq<Seq<char>>, seen: Set<char>) -> int {
    (if seen.contains('d') { 0 } else { amount_of(segs, 'd') * 86400 }) + (if seen.contains('h') {
        0
    } else {
        amount_of(segs, 'h') * 3600
    }) + (if seen.contains('m') { 0 } else { amount_of(segs, 'm') * 60 }) + (if seen.contains(
        's',
    ) {
        0
    } else {
        amount_of(segs, 's')
    })
}

/// The delay the segments ask for: days (at most 7), hours (at most 168),
/// minutes (at most 2880) and seconds (at most 3600), each from the first
/// segment of its unit.
pub open spec fn delay_formula(segs: Seq<Seq<char>>) -> int {
    amount_of(segs, 'd') * 86400 + amount_of(segs, 'h') * 3600 + amount_of(segs, 'm') * 60
        + amount_of(segs, 's')
}

proof fn lemma_scan_formula(segs: Seq<Seq<char>>, seen: Set<char>, acc: int)
    ensures
        scan_time(segs, seen, acc) matches Some(Ok(t)) ==> t == acc + unseen_seconds(segs, seen),
    decreases segs.len(),
{
    if segs.len() > 0 {
        let seg = segs[0];
        let c = seg.last();
        let rest = segs.drop_first();
        if is_unit(c) {
            assert forall|u: char| u != c implies #[trigger] first_of(segs, u) == first_of(rest, u) by {}
            assert(first_of(segs, c) == Some(seg));
            if seen.contains(c) {
                lemma_scan_formula(rest, seen, acc);
                assert(unseen_seconds(segs, seen) == unseen_seconds(rest, seen)) by {
                    assert(amount_of(segs, 'd') == amount_of(rest, 'd') || seen.contains('d'));
                    assert(amount_of(segs, 'h') == amount_of(rest, 'h') || seen.contains('h'));
                    assert(amount_of(segs, 'm') == amount_of(rest, 'm') || seen.contains('m'));
                    assert(amount_of(segs, 's') == amount_of(rest, 's') || seen.contains('s'));
                }
            } else {
                match parse_i64(seg.drop_last()) {
                    None => {},
                    Some(v) => {
                        let n = if v > unit_cap(c) {
                            unit_cap(c)
                        } else {
                            v
                        };
                        let term = n * unit_seconds(c);
                        lemma_scan_formula(rest, seen.insert(c), acc + term);
                        assert(amount_of(segs, c) == n);
                        assert(unseen_seconds(segs, seen) == term + unseen_seconds(
                            rest,
                            seen.insert(c),
                        )) by {
                            assert(amount_of(segs, 'd') == amount_of(rest, 'd') || c == 'd');
                            assert(amount_of(segs, 'h') == amount_of(rest, 'h') || c == 'h');
                            assert(amount_of(segs, 'm') == amount_of(rest, 'm') || c == 'm');
                            assert(amount_of(segs, 's') == amount_of(rest, 's') || c == 's');
                        }
                    },
                }
            }
        }
    }
}

/// Whether each segment of `segs` ends in a unit and has an amount that
/// `str::parse::<i64>` reads.
pub open spec fn readable_segments(segs: Seq<Seq<char>>) -> bool {
    forall|i: int|
        0 <= i < segs.len() ==> is_unit(#[trigger] segs[i].last()) && parse_i64(
            segs[i].drop_last(),
        ) is Some
}

proof fn lemma_scan_reads(segs: Seq<Seq<char>>, seen: Set<char>, acc: int)
    requires
        digit_segments(segs),
        readable_segments(segs),
        0 <= acc <= cap_total(seen),
    ensures
        scan_time(segs, seen, acc) is Some,
        scan_time(segs, seen, acc) matches Some(res) && res is Ok,
    decreases segs.len(),
{
    if segs.len() > 0 {
        let seg = segs[0];
        let c = seg.last();
        let rest = segs.drop_first();
        assert(is_unit(segs[0].last()));
        assert(digit_segments(rest)) by {
            assert forall|i: int| 0 <= i < rest.len() implies #[trigger] rest[i].len() >= 2
                && crate::text::all_digits(rest[i].drop_last()) by {
                assert(rest[i] == segs[i + 1]);
            }
        }
        assert(readable_segments(rest)) by {
            assert forall|i: int| 0 <= i < rest.len() implies is_unit(#[trigger] rest[i].last())
                && parse_i64(rest[i].drop_last()) is Some by {
                assert(rest[i] == segs[i + 1]);
                assert(is_unit(segs[i + 1].last()));
            }
        }
        if seen.contains(c) {
            lemma_scan_reads(rest, seen, acc);
        } else {
            let body = seg.drop_last();
            let v = parse_i64(body)->0;
            assert(segs[0].len() >= 2 && crate::text::all_digits(body));
            assert(body[0] != '+' && body[0] != '-') by {
                assert(crate::text::is_digit(body[0]));
            }
            crate::text::lemma_digits_prefix(body, body.len() as int);
            assert(body.take(body.len() as int) == body);
            assert(v >= 0);
            let n = if v > unit_cap(c) {
                unit_cap(c)
            } else {
                v
            };
            let term = n * unit_seconds(c);
            assert(0 <= term <= unit_cap(c) * unit_seconds(c)) by (nonlinear_arith)
                requires
                    term == n * unit_seconds(c),
                    0 <= n <= unit_cap(c),
                    unit_seconds(c) > 0,
            ;
            assert(cap_total(seen.insert(c)) == cap_total(seen) + unit_cap(c) * unit_seconds(c));
            lemma_scan_reads(rest, seen.insert(c), acc + term);
        }
    }
}

/// Every delay made of amounts of days, hours, minutes and seconds that
/// `str::parse::<i64>` reads is taken: each unit is capped on its own and
/// the capped amounts add up, so the total never leaves the range a delay
/// can hold.
pub proof fn law_delay_read(segs: Seq<Seq<char>>)
    requires
        digit_segments(segs),
        readable_segments(segs),
    ensures
        delay_of(segs) == Some(Ok::<int, ()>(delay_formula(segs))),
        0 <= delay_formula(segs) <= 1386000,
{
    lemma_scan_reads(segs, Set::empty(), 0);
    lemma_scan_formula(segs, Set::empty(), 0);
    law_delay_bounded(segs);
}

/// A delay that is read is the formula over the first segment of each
/// unit: later segments of a unit already counted do not count.
pub proof fn law_delay_formula(segs: Seq<Seq<char>>)
    ensures
        delay_of(segs) matches Some(Ok(t)) ==> t == delay_formula(segs),
{
    lemma_scan_formula(segs, Set::empty(), 0);
}

/// A delay read from the time pattern's segments is never more than a week
/// of days, a week of hours, two days of minutes and an hour of seconds
/// together, 1,386,000 seconds, and never negative when each amount is
/// made of digits.
pub proof fn law_delay_bounded(segs: Seq<Seq<char>>)
    ensures
        delay_of(segs) matches Some(Ok(t)) ==> t <= 1386000,
        digit_segments(segs) ==> (delay_of(segs) matches Some(Ok(t)) ==> 0 <= t),
{
    lemma_scan_bounds(segs, Set::empty(), 0);
}

/// Why a reminder was refused.
#[derive(PartialEq, Eq, Structural, Clone, Copy, Debug)]
pub enum ReminderError {
    /// The delay is not written as `0d0h0m0s`.
    BadFormat,
    /// The delay adds up to nothing.
    NoDuration,
}

impl ReminderError {
    /// What the channel is told.
    pub fn reply(&self) -> (r: &'static str)
        ensures
            r@ == (match *self {
                ReminderError::BadFormat => "Incorrect date format, make sure it's in the following format: `0d0h0m0s`"@,
                ReminderError::NoDuration => "You must specify a valid time for a reminder"@,
            }),
    {
        match self {
            ReminderError::BadFormat => "Incorrect date format, make sure it's in the following format: `0d0h0m0s`",
            ReminderError::NoDuration => "You must specify a valid time for a reminder",
        }
    }

    /// The error the command ends with.
    pub fn reason(&self) -> (r: &'static str)
        ensures
            r@ == (match *self {
                ReminderError::BadFormat => "Incorrect reminder timestamp"@,
                ReminderError::NoDuration => "No reminder duration"@,
            }),
    {
        match self {
            ReminderError::BadFormat => "Incorrect reminder timestamp",
            ReminderError::NoDuration => "No reminder duration",
        }
    }
}

fn unit_seconds_of(c: char) -> (r: i128)
    ensures
        r == unit_seconds(c),
{
    if c == 'd' {
        86400
    } else if c == 'h' {
        3600
    } else if c == 'm' {
        60
    } else {
        1
    }
}

fn unit_cap_of(c: char) -> (r: i64)
    ensures
        r == unit_cap(c),
{
    if c == 'd' {
        7
    } else if c == 'h' {
        168
    } else if c == 'm' {
        2880
    } else {
        3600
    }
}

/// Reads the delay segments `segs` as `scan_time` says, from the start.
pub fn scan_segments(segs: &Vec<Vec<char>>) -> (r: Option<Result<i64, ()>>)
    requires
        forall|i: int| 0 <= i < segs@.len() ==> segs@[i]@.len() > 0,
    ensures
        match r {
            None => delay_of(char_views(segs@)) is None,
            Some(Err(())) => delay_of(char_views(segs@)) == Some(Err::<int, ()>(())),
            Some(Ok(t)) => delay_of(char_views(segs@)) == Some(Ok::<int, ()>(t as int)),
        },
{
    let ghost all = char_views(segs@);
    let ghost mut seen: Set<char> = Set::empty();
    let mut days = false;
    let mut hours = false;
    let mut minutes = false;
    let mut seconds = false;
    let mut acc: i128 = 0;
    let mut i: usize = 0;
    assert(all.skip(0) =~= all);
    while i < segs.len()
        invariant
            i <= segs@.len(),
            all == char_views(segs@),
            forall|k: int| 0 <= k < segs@.len() ==> segs@[k]@.len() > 0,
            delay_of(all) == scan_time(all.skip(i as int), seen, acc as int),
            -seconds_bound() <= acc <= seconds_bound(),
            days == seen.contains('d'),
            hours == seen.contains('h'),
            minutes == seen.contains('m'),
            seconds == seen.contains('s'),
        decreases segs@.len() - i,
    {
        let seg = &segs[i];
        let n = seg.len();
        let c = seg[n - 1];
        let ghost rest = all.skip(i as int);
        assert(rest[0] == seg@);
        assert(rest.drop_first() == all.skip(i + 1));
        if !(c == 'd' || c == 'h' || c == 'm' || c == 's') {
            return Some(Err(()));
        }
        let already = if c == 'd' {
            days
        } else if c == 'h' {
            hours
        } else if c == 'm' {
            minutes
        } else {
            seconds
        };
        if !already {
            let mut amount: Vec<char> = Vec::new();
            for k in 0..n - 1
                invariant
                    n == seg@.len(),
                    n > 0,
                    amount@ == seg@.take(k as int),
            {
                amount.push(seg[k]);
                assert(seg@.take(k + 1) == seg@.take(k as int).push(seg@[k as int]));
            }
            assert(amount@ == seg@.drop_last());
            match parse_i64_chars(&amount) {
                None => {
                    return Some(Err(()));
                },
                Some(v) => {
                    let cap = unit_cap_of(c);
                    let capped: i64 = if v > cap {
                        cap
                    } else {
                        v
                    };
                    let term: i128 = capped as i128 * unit_seconds_of(c);
                    if term < -9223372036854775 || term > 9223372036854775 || acc + term
                        < -9223372036854775 || acc + term > 9223372036854775 {
                        return None;
                    }
                    acc = acc + term;
                    proof {
                        seen = seen.insert(c);
                    }
                    if c == 'd' {
                        days = true;
                    } else if c == 'h' {
                        hours = true;
                    } else if c == 'm' {
                        minutes = true;
                    } else {
                        seconds = true;
                    }
                },
            }
        }
        i = i + 1;
    }
    assert(all.skip(i as int).len() == 0);
    Some(Ok(acc as i64))
}

/// The delay in seconds read from the segments `segs` that the time
/// pattern picked out of the delay argument, each an amount followed by a
/// unit letter: only the first segment of each unit counts, amounts above
/// a unit's cap count as the cap, and a segment with an unknown unit or an
/// amount that is not a number makes the delay badly formatted.
pub fn read_time(segs: &Vec<Vec<char>>) -> (r: Result<i64, ReminderError>)
    requires
        forall|i: int| 0 <= i < segs@.len() ==> segs@[i]@.len() > 0,
        delay_of(char_views(segs@)) is Some,
    ensures
        match r {
            Ok(t) => delay_of(char_views(segs@)) == Some(Ok::<int, ()>(t as int)),
            Err(e) => e == ReminderError::BadFormat && delay_of(char_views(segs@))
                == Some(Err::<int, ()>(())),
        },
{
    match scan_segments(segs) {
        Some(Ok(t)) => Ok(t),
        Some(Err(())) => Err(ReminderError::BadFormat),
        None => Err(ReminderError::BadFormat),
    }
}

/// `n` followed by `word` when `n` is positive; nothing otherwise.
pub open spec fn amount_part(n: int, word: Seq<char>) -> Seq<Seq<char>> {
    if n > 0 {
        seq![decimal(n as nat) + word]
    } else {
        Seq::empty()
    }
}

/// How long `total` seconds is, as the confirmation says it: the whole
/// days, the whole hours, the whole minutes and the seconds of the whole
/// delay, each counted on its own, those that are positive, joined by `, `.
pub open spec fn duration_words(total: int) -> Seq<char> {
    join(
        amount_part(total / 86400, " days"@) + amount_part(total / 3600, " hours"@) + amount_part(
            total / 60,
            " minutes"@,
        ) + amount_part(total, " seconds"@),
        ", "@,
    )
}

/// The confirmation of a reminder in `total` seconds about `note`.
pub open spec fn confirmation_text(total: int, note: Seq<char>) -> Seq<char> {
    "I'll remind you in "@ + duration_words(total) + ": "@ + mono_line_safe(note)
}

fn push_part(parts: &mut Vec<Vec<char>>, n: u64, word: &str)
    ensures
        char_views(final(parts)@) == char_views(old(parts)@)
            + amount_part(n as int, word@),
{
    if n > 0 {
        let mut p = render_u64(n);
        append_str(&mut p, word);
        parts.push(p);
        assert(char_views(parts@) =~= char_views(old(parts)@)
            + amount_part(n as int, word@));
    } else {
        assert(char_views(parts@) =~= char_views(old(parts)@)
            + amount_part(n as int, word@));
    }
}

/// The words for a delay of `total` seconds.
pub fn duration_text(total: i64) -> (r: Vec<char>)
    ensures
        r@ == duration_words(total as int),
{
    let mut parts: Vec<Vec<char>> = Vec::new();
    if total > 0 {
        let t = total as u64;
        push_part(&mut parts, t / 86400, " days");
        push_part(&mut parts, t / 3600, " hours");
        push_part(&mut parts, t / 60, " minutes");
        push_part(&mut parts, t, " seconds");
    } else {
        assert(amount_part(total / 86400, " days"@) =~= Seq::<Seq<char>>::empty());
        assert(amount_part(total / 3600, " hours"@) =~= Seq::<Seq<char>>::empty());
        assert(amount_part(total / 60, " minutes"@) =~= Seq::<Seq<char>>::empty());
        assert(amount_part(total as int, " seconds"@) =~= Seq::<Seq<char>>::empty());
    }
    assert(char_views(parts@) =~= amount_part(total / 86400, " days"@) + amount_part(
        total / 3600,
        " hours"@,
    ) + amount_part(total / 60, " minutes"@) + amount_part(total as int, " seconds"@));
    join_chars(&parts, ", ")
}

/// The confirmation of a reminder in `total` seconds about `note`.
pub fn confirmation(total: i64, note: &str) -> (r: String)
    ensures
        r@ == confirmation_text(total as int, note@),
{
    let mut out = chars_of("I'll remind you in ");
    let words = duration_text(total);
    append(&mut out, &words);
    append_str(&mut out, ": ");
    let safe = push_mono_line_safe(note);
    append_str(&mut out, safe.as_str());
    string_of(&out)
}

/// A reminder ready to be scheduled.
pub struct Reminder {
    /// How long to wait, in seconds.
    pub seconds: i64,
    /// What the channel is told now.
    pub confirmation: String,
}

/// The segments of `text` that the time pattern picks out, when the
/// pattern compiles.
pub open spec fn time_segments(text: Seq<char>) -> Option<Seq<Seq<char>>> {
    regex_find_iter(TIME_PATTERN@, text)
}

/// The `remind` command: `delay` is its first argument and `note` the rest.
/// Gives `None`, and nothing else happens, when the time pattern does not
/// compile, picks out an empty segment or gives a delay out of range;
/// otherwise a bad format or a zero delay is an error, and any other delay
/// gives the reminder with its confirmation.
pub fn remind(delay: &str, note: &str) -> (r: Option<Result<Reminder, ReminderError>>)
    ensures
        match r {
            None => match time_segments(delay@) {
                None => true,
                Some(segs) => (exists|i: int| 0 <= i < segs.len() && segs[i].len() == 0)
                    || delay_of(segs) is None,
            },
            Some(res) => time_segments(delay@) matches Some(segs) && (forall|i: int|
                0 <= i < segs.len() ==> segs[i].len() > 0) && match (delay_of(segs), res) {
                (Some(Err(())), Err(e)) => e == ReminderError::BadFormat,
                (Some(Ok(t)), Err(e)) => t == 0 && e == ReminderError::NoDuration,
                (Some(Ok(t)), Ok(rem)) => t != 0 && rem.seconds == t && rem.confirmation@
                    == confirmation_text(t, note@),
                _ => false,
            },
        },
        r matches Some(Ok(rem)) ==> rem.seconds <= 1386000,
        r matches Some(Ok(rem)) ==> (time_segments(delay@) matches Some(segs) && rem.seconds
            == delay_formula(segs)),
{
    let found = match find_matches(TIME_PATTERN, delay) {
        Some(v) => v,
        None => {
            return None;
        },
    };
    let ghost segs = found@.map_values(|m: String| m@);
    let mut segments: Vec<Vec<char>> = Vec::new();
    for i in 0..found.len()
        invariant
            segs == found@.map_values(|m: String| m@),
            segs.len() == found@.len(),
            segments@.len() == i,
            char_views(segments@) == segs.take(i as int),
    {
        let s = chars_of(found[i].as_str());
        let ghost before = segments@;
        segments.push(s);
        assert(s@ == segs[i as int]);
        assert(segments@ == before.push(s));
        assert forall|k: int| 0 <= k < i + 1 implies #[trigger] char_views(segments@)[k] == segs.take(i + 1)[k] by {
            if k < i {
                assert(segments@[k] == before[k]);
                assert(before.map_values(|s: Vec<char>| s@)[k] == segs.take(i as int)[k]);
            }
        }
        assert(char_views(segments@) =~= segs.take(i + 1));
    }
    assert(segs.take(found@.len() as int) == segs);
    let ghost mapped = char_views(segments@);
    assert(mapped == segs);
    for i in 0..segments.len()
        invariant
            mapped == char_views(segments@),
            mapped == segs,
            time_segments(delay@) == Some(segs),
            segments@.len() == segs.len(),
            forall|k: int| 0 <= k < i ==> segments@[k]@.len() > 0,
    {
        if segments[i].len() == 0 {
            assert(mapped[i as int].len() == 0);
            assert(segs[i as int].len() == 0);
            assert(time_segments(delay@) == Some(segs));
            assert(exists|k: int| 0 <= k < segs.len() && segs[k].len() == 0);
            return None;
        }
    }
    proof {
        law_delay_bounded(segs);
        law_delay_formula(segs);
    }
    match scan_segments(&segments) {
        None => None,
        Some(Err(())) => Some(Err(ReminderError::BadFormat)),
        Some(Ok(t)) => {
            if t == 0 {
                Some(Err(ReminderError::NoDuration))
            } else {
                Some(Ok(Reminder { seconds: t, confirmation: confirmation(t, note) }))
            }
        },
    }
}

/// What the scheduled reminder does after an attempt to send it.
#[derive(PartialEq, Eq, Structural, Clone, Copy, Debug)]
pub enum Retry {
    /// Nothing more.
    Done,
    /// Try again this many milliseconds from now.
    After(i64),
}

/// What follows an attempt to send the reminder: after a failure it is
/// tried again five seconds later, counting the retries, until more than
/// five have been made; after a success, or beyond that, it is done.
pub fn after_attempt(sent: bool, attempts: &mut u32) -> (r: Retry)
    ensures
        sent ==> r == Retry::Done && *final(attempts) == *old(attempts),
        !sent && *old(attempts) > 5 ==> r == Retry::Done && *final(attempts) == *old(attempts),
        !sent && *old(attempts) <= 5 ==> r == Retry::After(5000) && *final(attempts) == *old(
            attempts,
        ) + 1,
{
    if sent {
        Retry::Done
    } else if *attempts > 5 {
        Retry::Done
    } else {
        *attempts = *attempts + 1;
        Retry::After(5000)
    }
}

/// The decisions for `k` failed attempts in a row, from no retries yet:
/// how many retries have been made after them, and whether the last one
/// was followed by another try.
pub open spec fn failures(k: nat) -> (nat, bool)
    decreases k,
{
    if k == 0 {
        (0, true)
    } else {
        let (made, _) = failures((k - 1) as nat);
        if made > 5 {
            (made, false)
        } else {
            (made + 1, true)
        }
    }
}

/// A reminder that cannot be sent is tried at most seven times: after each
/// of the first six failures it is retried, after the seventh it is given
/// up.
pub proof fn law_retries_bounded(k: nat)
    ensures
        k <= 6 ==> failures(k) == (k, true),
        k >= 7 ==> failures(k) == (6nat, false),
    decreases k,
{
    if k > 0 {
        law_retries_bounded((k - 1) as nat);
    }
}

/// The name a reminder is addressed to: the author's nickname in the
/// server, or else their user name.
pub fn reminder_name(nick: Option<String>, name: &str) -> (r: String)
    ensures
        r@ == (match nick {
            Some(n) => n@,
            None => name@,
        }),
{
    match nick {
        Some(n) => n,
        None => String::from_str(name),
    }
}

/// The heading of the reminder's embed for `name`, made safe.
pub fn reminder_heading(name: &str) -> (r: String)
    ensures
        r@ == "Reminder for "@ + crate::external::safe_text(name@),
{
    let mut out = chars_of("Reminder for ");
    let safe = crate::external::push_safe(name);
    append_str(&mut out, safe.as_str());
    string_of(&out)
}

/// The colour of the reminder's embed: the author's colour in the server,
/// or a purple.
pub fn reminder_colour(member_colour: Option<u32>) -> (r: u32)
    ensures
        r == (match member_colour {
            Some(c) => c,
            None => 0x5125B5,
        }),
{
    match member_colour {
        Some(c) => c,
        None => 0x5125B5,
    }
}

} // verus!
