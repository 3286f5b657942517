//! Resolving the truncated date strings printed by the service status
//! tool into absolute instants.
//!
//! A token has one of three mutually exclusive forms, told apart by the
//! separator it carries: `HH:MM:SS` (within the last day), `Mon_D` (within
//! the last year) and a bare numeric year (older). The two ambiguous forms
//! borrow the missing fields from a reference instant `now`, stepping back
//! one day or one year whenever the naive reading would lie in the future.

use crate::datetime::{days_in_month, DateTime, MAX_YEAR, MIN_YEAR};
use vstd::prelude::*;

verus! {

/// Splitting `s` at every occurrence of `sep`; a string with no separator
/// is one part, and adjacent separators produce empty parts.
pub open spec fn split_on(s: Seq<char>, sep: char) -> Seq<Seq<char>>
    decreases s.len(),
{
    if s.len() == 0 {
        seq![Seq::<char>::empty()]
    } else {
        let rest = split_on(s.drop_first(), sep);
        if s[0] == sep {
            seq![Seq::<char>::empty()] + rest
        } else {
            seq![seq![s[0]] + rest[0]] + rest.drop_first()
        }
    }
}

/// A split always has at least one part.
pub proof fn lemma_split_on_len(s: Seq<char>, sep: char)
    ensures
        split_on(s, sep).len() >= 1,
    decreases s.len(),
{
    if s.len() > 0 {
        lemma_split_on_len(s.drop_first(), sep);
    }
}

/// A decimal digit.
pub open spec fn is_digit(c: char) -> bool {
    0x30 <= (c as u32) <= 0x39
}

/// The value of a decimal digit.
pub open spec fn digit_val(c: char) -> int {
    c as u32 - 0x30
}

/// Every character of `s` is a decimal digit.
pub open spec fn all_digits(s: Seq<char>) -> bool {
    forall|i: int| 0 <= i < s.len() ==> is_digit(#[trigger] s[i])
}

/// The numeric value of a digit string, most significant digit first.
pub open spec fn digits_val(s: Seq<char>) -> int
    decreases s.len(),
{
    if s.len() == 0 {
        0int
    } else {
        digits_val(s.drop_last()) * 10 + digit_val(s.last())
    }
}

/// The numeric value as the parser computes it, clipped once it can no
/// longer matter: any prefix worth at least 100000 stops growing.
spec fn digits_val_sat(s: Seq<char>) -> int
    decreases s.len(),
{
    if s.len() == 0 {
        0int
    } else {
        let p = digits_val_sat(s.drop_last());
        if p >= 100000 {
            p
        } else {
            p * 10 + digit_val(s.last())
        }
    }
}

/// The clipped value agrees with the true value below the clip, and both
/// sit at or above it otherwise.
proof fn lemma_digits_val_sat(s: Seq<char>)
    requires
        all_digits(s),
    ensures
        0 <= digits_val_sat(s) <= 999999,
        digits_val_sat(s) == digits_val(s) || (digits_val_sat(s) >= 100000 && digits_val(s)
            >= digits_val_sat(s)),
    decreases s.len(),
{
    if s.len() > 0 {
        assert(all_digits(s.drop_last())) by {
            assert(forall|i: int|
                0 <= i < s.len() - 1 ==> s.drop_last()[i] == #[trigger] s[i]);
        }
        lemma_digits_val_sat(s.drop_last());
        assert(is_digit(s.last()));
    }
}

/// The month numbered by a three-letter abbreviation, or 0 if it is not
/// one of the twelve.
pub open spec fn month_number(s: Seq<char>) -> int {
    if s == "Jan"@ {
        1int
    } else if s == "Feb"@ {
        2int
    } else if s == "Mar"@ {
        3int
    } else if s == "Apr"@ {
        4int
    } else if s == "May"@ {
        5int
    } else if s == "Jun"@ {
        6int
    } else if s == "Jul"@ {
        7int
    } else if s == "Aug"@ {
        8int
    } else if s == "Sep"@ {
        9int
    } else if s == "Oct"@ {
        10int
    } else if s == "Nov"@ {
        11int
    } else {
        if s == "Dec"@ {
            12int
        } else {
            0int
        }
    }
}

/// Why a date token was rejected.
#[derive(Clone, Copy, Debug, PartialEq, Eq, Structural)]
pub enum DateErrorKind {
    /// The token does not have the lexical shape of any recognized form.
    MalformedInput,
    /// A time-of-day field parsed but lies outside its valid range, or the
    /// time names an instant before the supported calendar range.
    InvalidTime,
    /// A day field parsed but names no real day of that month, or the date
    /// would fall before the supported calendar range.
    InvalidMonthDay,
    /// A year outside the supported calendar range.
    InvalidYear,
}

/// A rejected date token, handed back with the offending token attached
/// for diagnostics.
#[derive(Debug)]
pub struct SmfDateError {
    pub kind: DateErrorKind,
    pub token: String,
}

/// The three numeric fields of a `HH:MM:SS` token, if it has exactly that
/// shape.
pub open spec fn time_fields(t: Seq<char>) -> Option<(int, int, int)> {
    let parts = split_on(t, ':');
    if parts.len() == 3 && parts[0].len() > 0 && all_digits(parts[0]) && parts[1].len() > 0
        && all_digits(parts[1]) && parts[2].len() > 0 && all_digits(parts[2]) {
        Some((digits_val(parts[0]), digits_val(parts[1]), digits_val(parts[2])))
    } else {
        None
    }
}

/// The month number and day value of a `Mon_D` token, if it has exactly
/// that shape.
pub open spec fn month_day_fields(t: Seq<char>) -> Option<(int, int)> {
    let parts = split_on(t, '_');
    if parts.len() == 2 && month_number(parts[0]) != 0 && parts[1].len() > 0 && all_digits(
        parts[1],
    ) {
        Some((month_number(parts[0]), digits_val(parts[1])))
    } else {
        None
    }
}

/// The value of a bare numeric year token, if it is one.
pub open spec fn year_field(t: Seq<char>) -> Option<int> {
    if t.len() > 0 && all_digits(t) {
        Some(digits_val(t))
    } else {
        None
    }
}

/// The same-day instant named by a time-of-day token: `now`'s date with
/// the token's time.
pub open spec fn time_candidate(now: DateTime, h: int, mi: int, s: int) -> DateTime {
    DateTime {
        year: now.year,
        month: now.month,
        day: now.day,
        hour: h as u32,
        minute: mi as u32,
        second: s as u32,
    }
}

/// The current-year instant named by a month-day token: midnight of that
/// month and day in `now`'s year.
pub open spec fn month_day_candidate(now: DateTime, m: int, d: int) -> DateTime {
    DateTime { year: now.year, month: m as u32, day: d as u32, hour: 0, minute: 0, second: 0 }
}

/// The previous-year reading of a month-day token, with the day clamped
/// to the length of that month in the previous year.
pub open spec fn month_day_previous_year(now: DateTime, m: int, d: int) -> DateTime {
    let dim = days_in_month(now.year - 1, m);
    DateTime {
        year: (now.year - 1) as i32,
        month: m as u32,
        day: (if d <= dim {
            d
        } else {
            dim
        }) as u32,
        hour: 0,
        minute: 0,
        second: 0,
    }
}

/// What resolving a token against `now` yields: the resolved instant, or
/// the reason the token was rejected.
///
/// A token containing `:` is a time of day. Its fields must parse and lie
/// in range; the instant is `now`'s date at that time, stepped back one
/// calendar day when it would be after `now`. A token containing `_` (and
/// no `:`) is a month and day. The month must be a known abbreviation and
/// the day must exist in that month of `now`'s year; the instant is that
/// date at midnight in `now`'s year, stepped back to the previous year
/// when it would be after `now`. Any other token is a year, resolved to
/// January 1 of that year at midnight.
pub open spec fn spec_resolve(now: DateTime, t: Seq<char>) -> Result<DateTime, DateErrorKind> {
    if t.contains(':') {
        match time_fields(t) {
            Option::None => Result::Err(DateErrorKind::MalformedInput),
            Option::Some(f) => {
                if !(f.0 <= 23 && f.1 <= 59 && f.2 <= 59) {
                    Result::Err(DateErrorKind::InvalidTime)
                } else {
                    let cand = time_candidate(now, f.0, f.1, f.2);
                    if cand.spec_timestamp() <= now.spec_timestamp() {
                        Result::Ok(cand)
                    } else if !(cand.year == MIN_YEAR && cand.month == 1 && cand.day == 1) {
                        Result::Ok(cand.spec_prev_day())
                    } else {
                        Result::Err(DateErrorKind::InvalidTime)
                    }
                }
            },
        }
    } else if t.contains('_') {
        match month_day_fields(t) {
            Option::None => Result::Err(DateErrorKind::MalformedInput),
            Option::Some(f) => {
                if !(1 <= f.1 && f.1 <= days_in_month(now.year as int, f.0)) {
                    Result::Err(DateErrorKind::InvalidMonthDay)
                } else {
                    let cand = month_day_candidate(now, f.0, f.1);
                    if cand.spec_timestamp() <= now.spec_timestamp() {
                        Result::Ok(cand)
                    } else if now.year > MIN_YEAR {
                        Result::Ok(month_day_previous_year(now, f.0, f.1))
                    } else {
                        Result::Err(DateErrorKind::InvalidMonthDay)
                    }
                }
            },
        }
    } else {
        match year_field(t) {
            Option::None => Result::Err(DateErrorKind::MalformedInput),
            Option::Some(y) => {
                if y > MAX_YEAR as int {
                    Result::Err(DateErrorKind::InvalidYear)
                } else {
                    Result::Ok(
                        DateTime {
                            year: y as i32,
                            month: 1,
                            day: 1,
                            hour: 0,
                            minute: 0,
                            second: 0,
                        },
                    )
                }
            },
        }
    }
}

/// Whether `c` occurs in `v`.
fn contains_char(v: &Vec<char>, c: char) -> (r: bool)
    ensures
        r <==> v@.contains(c),
{
    let n: usize = v.len();
    let mut i: usize = 0;
    while i < n
        invariant
            0 <= i <= n == v@.len(),
            forall|j: int| 0 <= j < i ==> v@[j] != c,
        decreases n - i,
    {
        if v[i] == c {
            return true;
        }
        i = i + 1;
    }
    false
}

/// Split `v` at every occurrence of `sep`.
pub fn split_vec(v: &Vec<char>, sep: char) -> (r: Vec<Vec<char>>)
    ensures
        r.deep_view() == split_on(v@, sep),
{
    let ghost whole: Seq<char> = v@;
    let mut parts: Vec<Vec<char>> = Vec::new();
    let mut cur: Vec<char> = Vec::new();
    let n: usize = v.len();
    let mut i: usize = 0;
    proof {
        assert(whole.skip(0) =~= whole);
    }
    while i < n
        invariant
            0 <= i <= n == whole.len(),
            whole == v@,
            split_on(whole, sep) == parts.deep_view() + seq![
                cur@ + split_on(whole.skip(i as int), sep)[0],
            ] + split_on(whole.skip(i as int), sep).drop_first(),
        decreases n - i,
    {
        let c: char = v[i];
        let ghost old_parts: Seq<Seq<char>> = parts.deep_view();
        let ghost old_cur: Seq<char> = cur@;
        let ghost rem: Seq<Seq<char>> = split_on(whole.skip(i as int), sep);
        let ghost rem2: Seq<Seq<char>> = split_on(whole.skip(i as int + 1), sep);
        proof {
            lemma_split_on_len(whole.skip(i as int + 1), sep);
            assert(whole.skip(i as int)[0] == whole[i as int]);
            assert(whole.skip(i as int).drop_first() =~= whole.skip(i as int + 1));
        }
        if c == sep {
            parts.push(cur);
            cur = Vec::new();
            proof {
                assert(rem =~~= seq![Seq::<char>::empty()] + rem2);
                assert(rem.drop_first() =~~= rem2);
                assert(old_cur + rem[0] =~= old_cur);
                assert(parts.deep_view() =~~= old_parts.push(old_cur));
                assert(parts.deep_view() + seq![cur@ + rem2[0]] + rem2.drop_first() =~~= old_parts
                    + seq![old_cur + rem[0]] + rem.drop_first());
            }
        } else {
            cur.push(c);
            proof {
                assert(rem =~~= seq![seq![whole[i as int]] + rem2[0]] + rem2.drop_first());
                assert(old_cur + rem[0] =~= cur@ + rem2[0]);
                assert(rem.drop_first() =~~= rem2.drop_first());
                assert(parts.deep_view() + seq![cur@ + rem2[0]] + rem2.drop_first() =~~= old_parts
                    + seq![old_cur + rem[0]] + rem.drop_first());
            }
        }
        i = i + 1;
    }
    let ghost old_parts: Seq<Seq<char>> = parts.deep_view();
    let ghost old_cur: Seq<char> = cur@;
    proof {
        assert(whole.skip(n as int) =~= Seq::<char>::empty());
        assert(split_on(whole.skip(n as int), sep) =~~= seq![Seq::<char>::empty()]);
        assert(old_cur + Seq::<char>::empty() =~= old_cur);
        assert(split_on(whole, sep) =~~= old_parts.push(old_cur));
    }
    parts.push(cur);
    proof {
        assert(parts.deep_view() =~~= old_parts.push(old_cur));
    }
    parts
}

/// Parse a digit string; values are exact up to five digits and clipped
/// beyond that, which still decides every range check the resolver makes.
fn parse_number(v: &Vec<char>) -> (r: Option<u32>)
    ensures
        r is Some <==> (v@.len() > 0 && all_digits(v@)),
        r matches Some(n) ==> (n == digits_val(v@) || (n >= 100000 && digits_val(v@) >= 100000)),
{
    let n: usize = v.len();
    if n == 0 {
        return None;
    }
    let mut acc: u32 = 0;
    let mut i: usize = 0;
    proof {
        assert(v@.take(0) =~= Seq::<char>::empty());
    }
    while i < n
        invariant
            0 <= i <= n == v@.len(),
            all_digits(v@.take(i as int)),
            acc == digits_val_sat(v@.take(i as int)),
            acc <= 999999,
        decreases n - i,
    {
        let c: char = v[i];
        let u: u32 = c as u32;
        if !(0x30 <= u && u <= 0x39) {
            return None;
        }
        proof {
            assert(v@.take(i as int + 1).drop_last() =~= v@.take(i as int));
            assert(v@.take(i as int + 1).last() == v@[i as int]);
            assert(forall|j: int|
                0 <= j < i + 1 ==> is_digit(#[trigger] v@.take(i as int + 1)[j]));
        }
        if acc >= 100000 {
        } else {
            acc = acc * 10 + (u - 0x30);
        }
        i = i + 1;
    }
    proof {
        assert(v@.take(n as int) =~= v@);
        lemma_digits_val_sat(v@);
    }
    Some(acc)
}

/// The month numbered by a three-letter abbreviation, or 0 if it is not
/// one of the twelve.
fn month_number_ex(v: &Vec<char>) -> (r: u32)
    ensures
        r == month_number(v@),
{
    proof {
        reveal_strlit("Jan");
        reveal_strlit("Feb");
        reveal_strlit("Mar");
        reveal_strlit("Apr");
        reveal_strlit("May");
        reveal_strlit("Jun");
        reveal_strlit("Jul");
        reveal_strlit("Aug");
        reveal_strlit("Sep");
        reveal_strlit("Oct");
        reveal_strlit("Nov");
        reveal_strlit("Dec");
    }
    if v.len() != 3 {
        return 0;
    }
    let a: char = v[0];
    let b: char = v[1];
    let c: char = v[2];
    proof {
        assert(v@.len() == 3);
        assert(v@ == seq![a, b, c]) by {
            assert(v@ =~= seq![a, b, c]);
        }
    }
    let r: u32 = if a == 'J' && b == 'a' && c == 'n' {
        1
    } else if a == 'F' && b == 'e' && c == 'b' {
        2
    } else if a == 'M' && b == 'a' && c == 'r' {
        3
    } else if a == 'A' && b == 'p' && c == 'r' {
        4
    } else if a == 'M' && b == 'a' && c == 'y' {
        5
    } else if a == 'J' && b == 'u' && c == 'n' {
        6
    } else if a == 'J' && b == 'u' && c == 'l' {
        7
    } else if a == 'A' && b == 'u' && c == 'g' {
        8
    } else if a == 'S' && b == 'e' && c == 'p' {
        9
    } else if a == 'O' && b == 'c' && c == 't' {
        10
    } else if a == 'N' && b == 'o' && c == 'v' {
        11
    } else if a == 'D' && b == 'e' && c == 'c' {
        12
    } else {
        0
    };
    proof {
        assert(seq![a, b, c] == "Jan"@ <==> (a == 'J' && b == 'a' && c == 'n')) by {
            if a == 'J' && b == 'a' && c == 'n' {
                assert(seq![a, b, c] =~= "Jan"@);
            }
        }
        assert(seq![a, b, c] == "Feb"@ <==> (a == 'F' && b == 'e' && c == 'b')) by {
            if a == 'F' && b == 'e' && c == 'b' {
                assert(seq![a, b, c] =~= "Feb"@);
            }
        }
        assert(seq![a, b, c] == "Mar"@ <==> (a == 'M' && b == 'a' && c == 'r')) by {
            if a == 'M' && b == 'a' && c == 'r' {
                assert(seq![a, b, c] =~= "Mar"@);
            }
        }
        assert(seq![a, b, c] == "Apr"@ <==> (a == 'A' && b == 'p' && c == 'r')) by {
            if a == 'A' && b == 'p' && c == 'r' {
                assert(seq![a, b, c] =~= "Apr"@);
            }
        }
        assert(seq![a, b, c] == "May"@ <==> (a == 'M' && b == 'a' && c == 'y')) by {
            if a == 'M' && b == 'a' && c == 'y' {
                assert(seq![a, b, c] =~= "May"@);
            }
        }
        assert(seq![a, b, c] == "Jun"@ <==> (a == 'J' && b == 'u' && c == 'n')) by {
            if a == 'J' && b == 'u' && c == 'n' {
                assert(seq![a, b, c] =~= "Jun"@);
            }
        }
        assert(seq![a, b, c] == "Jul"@ <==> (a == 'J' && b == 'u' && c == 'l')) by {
            if a == 'J' && b == 'u' && c == 'l' {
                assert(seq![a, b, c] =~= "Jul"@);
            }
        }
        assert(seq![a, b, c] == "Aug"@ <==> (a == 'A' && b == 'u' && c == 'g')) by {
            if a == 'A' && b == 'u' && c == 'g' {
                assert(seq![a, b, c] =~= "Aug"@);
            }
        }
        assert(seq![a, b, c] == "Sep"@ <==> (a == 'S' && b == 'e' && c == 'p')) by {
            if a == 'S' && b == 'e' && c == 'p' {
                assert(seq![a, b, c] =~= "Sep"@);
            }
        }
        assert(seq![a, b, c] == "Oct"@ <==> (a == 'O' && b == 'c' && c == 't')) by {
            if a == 'O' && b == 'c' && c == 't' {
                assert(seq![a, b, c] =~= "Oct"@);
            }
        }
        assert(seq![a, b, c] == "Nov"@ <==> (a == 'N' && b == 'o' && c == 'v')) by {
            if a == 'N' && b == 'o' && c == 'v' {
                assert(seq![a, b, c] =~= "Nov"@);
            }
        }
        assert(seq![a, b, c] == "Dec"@ <==> (a == 'D' && b == 'e' && c == 'c')) by {
            if a == 'D' && b == 'e' && c == 'c' {
                assert(seq![a, b, c] =~= "Dec"@);
            }
        }
    }
    r
}

/// An error of the given kind, carrying the offending token.
fn mk_err(kind: DateErrorKind, date: &str) -> (e: SmfDateError)
    ensures
        e.kind == kind,
        e.token@ == date@,
{
    SmfDateError { kind, token: date.to_owned() }
}

/// Parse a truncated date token as printed by the service status tool,
/// resolving it against the reference instant `now`.
///
/// The result is exactly `spec_resolve(*now, date@)`: the same-day reading
/// of a time-of-day token, stepped back one calendar day when it lies
/// after `now`; the current-year reading of a month-day token, stepped
/// back to the previous year when it lies after `now`; or January 1 for a
/// bare year. A rejected token comes back with the reason and the token
/// itself.
pub fn parse_smf_date(now: &DateTime, date: &str) -> (r: Result<DateTime, SmfDateError>)
    requires
        now.wf(),
    ensures
        r matches Ok(d) ==> spec_resolve(*now, date@) == Result::<DateTime, DateErrorKind>::Ok(d)
            && d.wf(),
        r matches Err(e) ==> spec_resolve(*now, date@) == Result::<DateTime, DateErrorKind>::Err(
            e.kind,
        ) && e.token@ == date@,
{
    let chars: Vec<char> = crate::text::str_chars(date);
    if contains_char(&chars, ':') {
        // Time-of-day form: the event happened within the last day.
        let parts: Vec<Vec<char>> = split_vec(&chars, ':');
        proof {
            assert(parts.deep_view().len() == parts@.len());
        }
        if parts.len() != 3 {
            return Err(mk_err(DateErrorKind::MalformedInput, date));
        }
        proof {
            assert(parts.deep_view()[0] == parts@[0]@);
            assert(parts.deep_view()[1] == parts@[1]@);
            assert(parts.deep_view()[2] == parts@[2]@);
        }
        let hours: Option<u32> = parse_number(&parts[0]);
        let minutes: Option<u32> = parse_number(&parts[1]);
        let seconds: Option<u32> = parse_number(&parts[2]);
        if hours.is_none() || minutes.is_none() || seconds.is_none() {
            return Err(mk_err(DateErrorKind::MalformedInput, date));
        }
        let h: u32 = hours.unwrap();
        let mi: u32 = minutes.unwrap();
        let s: u32 = seconds.unwrap();
        if !(h <= 23 && mi <= 59 && s <= 59) {
            return Err(mk_err(DateErrorKind::InvalidTime, date));
        }
        let cand = DateTime {
            year: now.year,
            month: now.month,
            day: now.day,
            hour: h,
            minute: mi,
            second: s,
        };
        if cand.timestamp() <= now.timestamp() {
            Ok(cand)
        } else {
            match cand.prev_day() {
                Some(p) => Ok(p),
                None => Err(mk_err(DateErrorKind::InvalidTime, date)),
            }
        }
    } else if contains_char(&chars, '_') {
        // Month-day form: the event happened within the last year.
        let parts: Vec<Vec<char>> = split_vec(&chars, '_');
        proof {
            assert(parts.deep_view().len() == parts@.len());
        }
        if parts.len() != 2 {
            return Err(mk_err(DateErrorKind::MalformedInput, date));
        }
        proof {
            assert(parts.deep_view()[0] == parts@[0]@);
            assert(parts.deep_view()[1] == parts@[1]@);
        }
        let m: u32 = month_number_ex(&parts[0]);
        let day: Option<u32> = parse_number(&parts[1]);
        if m == 0 || day.is_none() {
            return Err(mk_err(DateErrorKind::MalformedInput, date));
        }
        let d: u32 = day.unwrap();
        if !(1 <= d && d <= crate::datetime::days_in_month_ex(now.year, m)) {
            return Err(mk_err(DateErrorKind::InvalidMonthDay, date));
        }
        let cand = DateTime { year: now.year, month: m, day: d, hour: 0, minute: 0, second: 0 };
        if cand.timestamp() <= now.timestamp() {
            Ok(cand)
        } else {
            match cand.prev_year_clamped() {
                Some(p) => Ok(p),
                None => Err(mk_err(DateErrorKind::InvalidMonthDay, date)),
            }
        }
    } else {
        // Year form: the event happened over a year ago.
        let year: Option<u32> = parse_number(&chars);
        if year.is_none() {
            return Err(mk_err(DateErrorKind::MalformedInput, date));
        }
        let y: u32 = year.unwrap();
        if y > 9999 {
            return Err(mk_err(DateErrorKind::InvalidYear, date));
        }
        Ok(DateTime { year: y as i32, month: 1, day: 1, hour: 0, minute: 0, second: 0 })
    }
}

/// A valid time-of-day token whose same-day instant is not after `now`
/// resolves to exactly that same-day instant.
pub proof fn lemma_resolve_time_same_day(now: DateTime, t: Seq<char>, h: int, mi: int, s: int)
    requires
        t.contains(':'),
        time_fields(t) == Some((h, mi, s)),
        0 <= h <= 23,
        0 <= mi <= 59,
        0 <= s <= 59,
        time_candidate(now, h, mi, s).spec_timestamp() <= now.spec_timestamp(),
    ensures
        spec_resolve(now, t) == Result::<DateTime, DateErrorKind>::Ok(
            time_candidate(now, h, mi, s),
        ),
{
}

/// A valid time-of-day token whose same-day instant is after `now`
/// resolves to that instant minus exactly one calendar day: the previous
/// calendar day at the same time, 86400 seconds earlier.
pub proof fn lemma_resolve_time_previous_day(now: DateTime, t: Seq<char>, h: int, mi: int, s: int)
    requires
        now.wf(),
        t.contains(':'),
        time_fields(t) == Some((h, mi, s)),
        0 <= h <= 23,
        0 <= mi <= 59,
        0 <= s <= 59,
        time_candidate(now, h, mi, s).spec_timestamp() > now.spec_timestamp(),
        !(now.year == MIN_YEAR && now.month == 1 && now.day == 1),
    ensures
        spec_resolve(now, t) == Result::<DateTime, DateErrorKind>::Ok(
            time_candidate(now, h, mi, s).spec_prev_day(),
        ),
        time_candidate(now, h, mi, s).spec_prev_day().spec_timestamp() == time_candidate(
            now,
            h,
            mi,
            s,
        ).spec_timestamp() - 86400,
{
    crate::datetime::lemma_prev_day_timestamp(time_candidate(now, h, mi, s));
}

/// A valid month-day token whose current-year instant is not after `now`
/// resolves to exactly that current-year midnight instant.
pub proof fn lemma_resolve_month_day_same_year(now: DateTime, t: Seq<char>, m: int, d: int)
    requires
        !t.contains(':'),
        t.contains('_'),
        month_day_fields(t) == Some((m, d)),
        1 <= d <= days_in_month(now.year as int, m),
        month_day_candidate(now, m, d).spec_timestamp() <= now.spec_timestamp(),
    ensures
        spec_resolve(now, t) == Result::<DateTime, DateErrorKind>::Ok(
            month_day_candidate(now, m, d),
        ),
{
}

/// A valid month-day token whose current-year instant is after `now`
/// resolves to the same month and day in the previous year (the day
/// clamped to that month's length there).
pub proof fn lemma_resolve_month_day_previous_year(now: DateTime, t: Seq<char>, m: int, d: int)
    requires
        !t.contains(':'),
        t.contains('_'),
        month_day_fields(t) == Some((m, d)),
        1 <= d <= days_in_month(now.year as int, m),
        month_day_candidate(now, m, d).spec_timestamp() > now.spec_timestamp(),
        now.year > MIN_YEAR,
    ensures
        spec_resolve(now, t) == Result::<DateTime, DateErrorKind>::Ok(
            month_day_previous_year(now, m, d),
        ),
        month_day_previous_year(now, m, d).year == now.year - 1,
        month_day_previous_year(now, m, d).month == m,
        d <= days_in_month(now.year - 1, m) ==> month_day_previous_year(now, m, d).day == d,
{
}

/// A bare numeric year token in range resolves to January 1 of that year
/// at midnight, whatever `now` is.
pub proof fn lemma_resolve_year(now: DateTime, t: Seq<char>, y: int)
    requires
        !t.contains(':'),
        !t.contains('_'),
        year_field(t) == Some(y),
        0 <= y <= MAX_YEAR as int,
    ensures
        spec_resolve(now, t) == Result::<DateTime, DateErrorKind>::Ok(
            DateTime { year: y as i32, month: 1, day: 1, hour: 0, minute: 0, second: 0 },
        ),
{
}

} // verus!
