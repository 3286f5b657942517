//! Rendering an elapsed duration as a single-unit, human-readable label
//! such as `"5 minutes"` or `"3 months"`.
//!
//! The unit is the largest one whose count is at least 1, using fixed
//! approximations of 365 days per year and 30 days per month; the count is
//! the elapsed seconds divided by the unit's length. This lossy reduction
//! is deliberate: the label never combines units.

use vstd::arithmetic::div_mod::lemma_div_is_ordered;
use vstd::prelude::*;

verus! {

/// Rank of the unit chosen for an elapsed duration: 7 is years down to
/// 1 for seconds, 0 for a zero duration.
pub open spec fn age_rank(secs: u64) -> int {
    if secs >= 31536000 {
        7int
    } else if secs >= 2592000 {
        6int
    } else if secs >= 604800 {
        5int
    } else if secs >= 86400 {
        4int
    } else if secs >= 3600 {
        3int
    } else if secs >= 60 {
        2int
    } else if secs >= 1 {
        1int
    } else {
        0int
    }
}

/// Length in seconds of the unit with the given rank.
pub open spec fn unit_secs(rank: int) -> int {
    if rank == 7 {
        31536000int
    } else if rank == 6 {
        2592000int
    } else if rank == 5 {
        604800int
    } else if rank == 4 {
        86400int
    } else if rank == 3 {
        3600int
    } else if rank == 2 {
        60int
    } else {
        1int
    }
}

/// Singular name of the unit with the given rank.
pub open spec fn unit_name(rank: int) -> Seq<char> {
    if rank == 7 {
        "year"@
    } else if rank == 6 {
        "month"@
    } else if rank == 5 {
        "week"@
    } else if rank == 4 {
        "day"@
    } else if rank == 3 {
        "hour"@
    } else if rank == 2 {
        "minute"@
    } else {
        "second"@
    }
}

/// How many of the chosen unit fit in the elapsed duration.
pub open spec fn age_count(secs: u64) -> int {
    if secs == 0 {
        0int
    } else {
        secs as int / unit_secs(age_rank(secs))
    }
}

/// The decimal digits of `n`, most significant first.
pub open spec fn dec_str(n: int) -> Seq<char>
    decreases n,
{
    if n < 10 {
        seq![digit_char(n)]
    } else {
        dec_str(n / 10).push(digit_char(n % 10))
    }
}

/// The character for a single decimal digit.
pub open spec fn digit_char(n: int) -> char {
    if n == 0 {
        '0'
    } else if n == 1 {
        '1'
    } else if n == 2 {
        '2'
    } else if n == 3 {
        '3'
    } else if n == 4 {
        '4'
    } else if n == 5 {
        '5'
    } else if n == 6 {
        '6'
    } else if n == 7 {
        '7'
    } else if n == 8 {
        '8'
    } else {
        '9'
    }
}

/// A count followed by a unit name, pluralized when the count exceeds 1.
pub open spec fn count_label(n: int, unit: Seq<char>) -> Seq<char> {
    dec_str(n) + " "@ + unit + if n > 1 {
        "s"@
    } else {
        Seq::<char>::empty()
    }
}

/// The full relative-age label for an elapsed duration in seconds.
pub open spec fn relative_label(secs: u64) -> Seq<char> {
    if secs == 0 {
        "0 seconds"@
    } else {
        count_label(age_count(secs), unit_name(age_rank(secs)))
    }
}

/// A one-character string slice for a decimal digit.
fn digit_str(n: u64) -> (r: &'static str)
    requires
        n < 10,
    ensures
        r@ == seq![digit_char(n as int)],
{
    proof {
        reveal_strlit("0");
        reveal_strlit("1");
        reveal_strlit("2");
        reveal_strlit("3");
        reveal_strlit("4");
        reveal_strlit("5");
        reveal_strlit("6");
        reveal_strlit("7");
        reveal_strlit("8");
        reveal_strlit("9");
    }
    let r: &'static str = if n == 0 {
        "0"
    } else if n == 1 {
        "1"
    } else if n == 2 {
        "2"
    } else if n == 3 {
        "3"
    } else if n == 4 {
        "4"
    } else if n == 5 {
        "5"
    } else if n == 6 {
        "6"
    } else if n == 7 {
        "7"
    } else if n == 8 {
        "8"
    } else {
        "9"
    };
    proof {
        assert(r@ =~= seq![digit_char(n as int)]);
    }
    r
}

/// The decimal representation of `n`.
fn dec_string(n: u64) -> (r: String)
    ensures
        r@ == dec_str(n as int),
    decreases n,
{
    if n < 10 {
        String::from_str(digit_str(n))
    } else {
        let mut s = dec_string(n / 10);
        s.append(digit_str(n % 10));
        proof {
            assert(s@ =~= dec_str(n as int));
        }
        s
    }
}

/// `n` of the given unit, with an `s` appended when `n > 1`.
fn count_label_ex(n: u64, unit: &str) -> (r: String)
    requires
        n >= 1,
    ensures
        r@ == count_label(n as int, unit@),
{
    let mut s = dec_string(n);
    s.append(" ");
    s.append(unit);
    if n > 1 {
        s.append("s");
    }
    proof {
        assert(s@ =~= count_label(n as int, unit@));
    }
    s
}

/// Convert an elapsed duration (in whole seconds) to a human-readable
/// single-unit label like `"5 minutes"` or `"2 hours"`; a zero duration
/// becomes `"0 seconds"`.
pub fn relative_duration(secs: u64) -> (r: String)
    ensures
        r@ == relative_label(secs),
{
    if secs >= 31536000 {
        count_label_ex(secs / 31536000, "year")
    } else if secs >= 2592000 {
        count_label_ex(secs / 2592000, "month")
    } else if secs >= 604800 {
        count_label_ex(secs / 604800, "week")
    } else if secs >= 86400 {
        count_label_ex(secs / 86400, "day")
    } else if secs >= 3600 {
        count_label_ex(secs / 3600, "hour")
    } else if secs >= 60 {
        count_label_ex(secs / 60, "minute")
    } else if secs >= 1 {
        count_label_ex(secs, "second")
    } else {
        String::from_str("0 seconds")
    }
}

/// The chosen unit never shrinks as the duration grows: a longer duration
/// maps to a larger unit, or to the same unit with at least as large a
/// count. A zero duration is labelled `"0 seconds"`.
pub proof fn lemma_relative_age_monotonic(s1: u64, s2: u64)
    requires
        s1 <= s2,
    ensures
        age_rank(s1) <= age_rank(s2),
        age_rank(s1) == age_rank(s2) ==> age_count(s1) <= age_count(s2),
        relative_label(0) == "0 seconds"@,
{
    if age_rank(s1) == age_rank(s2) && s1 >= 1 {
        lemma_div_is_ordered(s1 as int, s2 as int, unit_secs(age_rank(s1)));
    }
}

} // verus!
