//! The RFC 3339 timestamp profile the normalizer emits: `YYYY-MM-DDThh:mm:ss`
//! followed by a numeric UTC offset `+hh:mm` or `-hh:mm`, 25 characters in
//! all. `rfc3339_denotes` gives the profile its meaning (the instant in
//! seconds since the Unix epoch that a string stands for); the renderer and
//! the parser are verified against it.

use crate::calendar::{day_index, month_length, EPOCH_DAY_INDEX};
use vstd::prelude::*;

verus! {

pub open spec fn is_digit_char(c: char) -> bool {
    c == '0' || c == '1' || c == '2' || c == '3' || c == '4' || c == '5' || c == '6' || c == '7'
        || c == '8' || c == '9'
}

pub open spec fn digit_value(c: char) -> int {
    if c == '0' {
        0
    } else if c == '1' {
        1
    } else if c == '2' {
        2
    } else if c == '3' {
        3
    } else if c == '4' {
        4
    } else if c == '5' {
        5
    } else if c == '6' {
        6
    } else if c == '7' {
        7
    } else if c == '8' {
        8
    } else {
        9
    }
}

pub open spec fn digit_char(v: int) -> char {
    if v == 0 {
        '0'
    } else if v == 1 {
        '1'
    } else if v == 2 {
        '2'
    } else if v == 3 {
        '3'
    } else if v == 4 {
        '4'
    } else if v == 5 {
        '5'
    } else if v == 6 {
        '6'
    } else if v == 7 {
        '7'
    } else if v == 8 {
        '8'
    } else {
        '9'
    }
}

/// The 25 characters of a timestamp with the given field values.
pub open spec fn stamp_seq(
    y: int,
    m: int,
    d: int,
    hh: int,
    mi: int,
    ss: int,
    neg: bool,
    oh: int,
    om: int,
) -> Seq<char> {
    seq![
        digit_char(y / 100 / 10),
        digit_char(y / 100 % 10),
        digit_char(y % 100 / 10),
        digit_char(y % 100 % 10),
        '-',
        digit_char(m / 10),
        digit_char(m % 10),
        '-',
        digit_char(d / 10),
        digit_char(d % 10),
        'T',
        digit_char(hh / 10),
        digit_char(hh % 10),
        ':',
        digit_char(mi / 10),
        digit_char(mi % 10),
        ':',
        digit_char(ss / 10),
        digit_char(ss % 10),
        if neg {
            '-'
        } else {
            '+'
        },
        digit_char(oh / 10),
        digit_char(oh % 10),
        ':',
        digit_char(om / 10),
        digit_char(om % 10),
    ]
}

pub open spec fn two_digits_at(s: Seq<char>, i: int) -> bool {
    is_digit_char(s[i]) && is_digit_char(s[i + 1])
}

pub open spec fn num2(s: Seq<char>, i: int) -> int {
    digit_value(s[i]) * 10 + digit_value(s[i + 1])
}

pub open spec fn num4(s: Seq<char>, i: int) -> int {
    num2(s, i) * 100 + num2(s, i + 2)
}

/// The shape of the profile: digits and punctuation in their places.
pub open spec fn well_formed_stamp(s: Seq<char>) -> bool {
    &&& s.len() == 25
    &&& two_digits_at(s, 0) && two_digits_at(s, 2)
    &&& s[4] == '-' && two_digits_at(s, 5)
    &&& s[7] == '-' && two_digits_at(s, 8)
    &&& s[10] == 'T' && two_digits_at(s, 11)
    &&& s[13] == ':' && two_digits_at(s, 14)
    &&& s[16] == ':' && two_digits_at(s, 17)
    &&& (s[19] == '+' || s[19] == '-') && two_digits_at(s, 20)
    &&& s[22] == ':' && two_digits_at(s, 23)
}

pub open spec fn stamp_year(s: Seq<char>) -> int {
    num4(s, 0)
}

pub open spec fn stamp_month(s: Seq<char>) -> int {
    num2(s, 5)
}

pub open spec fn stamp_day(s: Seq<char>) -> int {
    num2(s, 8)
}

pub open spec fn stamp_hour(s: Seq<char>) -> int {
    num2(s, 11)
}

pub open spec fn stamp_minute(s: Seq<char>) -> int {
    num2(s, 14)
}

pub open spec fn stamp_second(s: Seq<char>) -> int {
    num2(s, 17)
}

/// The UTC offset a stamp carries, in seconds east of UTC.
pub open spec fn stamp_offset(s: Seq<char>) -> int {
    (if s[19] == '-' {
        -1int
    } else {
        1int
    }) * (num2(s, 20) * 3600 + num2(s, 23) * 60)
}

/// The field ranges the profile admits. The offset hour 24 appears only as
/// the whole-day offset `24:00`.
pub open spec fn stamp_fields_ok(s: Seq<char>) -> bool {
    &&& 1 <= stamp_month(s) <= 12
    &&& 1 <= stamp_day(s) <= month_length(stamp_year(s), stamp_month(s))
    &&& stamp_hour(s) <= 23
    &&& stamp_minute(s) <= 59
    &&& stamp_second(s) <= 59
    &&& num2(s, 23) <= 59
    &&& (num2(s, 20) <= 23 || (num2(s, 20) == 24 && num2(s, 23) == 0))
}

/// The instant a stamp stands for: its civil fields read as local time at the
/// carried offset, counted in seconds since the Unix epoch.
pub open spec fn stamp_instant(s: Seq<char>) -> int {
    (day_index(stamp_year(s), stamp_month(s), stamp_day(s)) - EPOCH_DAY_INDEX as int) * 86400
        + stamp_hour(s) * 3600 + stamp_minute(s) * 60 + stamp_second(s) - stamp_offset(s)
}

/// What a character sequence denotes under the profile: an instant, or
/// nothing when the sequence is not a timestamp of the profile.
pub open spec fn rfc3339_denotes(s: Seq<char>) -> Option<int> {
    if well_formed_stamp(s) && stamp_fields_ok(s) {
        Some(stamp_instant(s))
    } else {
        None
    }
}

fn append_digit(s: &mut String, v: u64)
    requires
        v < 10,
    ensures
        final(s)@ == old(s)@ + seq![digit_char(v as int)],
{
    if v == 0 {
        proof {
            reveal_strlit("0");
            assert("0"@ =~= seq![digit_char(0)]);
        }
        s.append("0");
    } else if v == 1 {
        proof {
            reveal_strlit("1");
            assert("1"@ =~= seq![digit_char(1)]);
        }
        s.append("1");
    } else if v == 2 {
        proof {
            reveal_strlit("2");
            assert("2"@ =~= seq![digit_char(2)]);
        }
        s.append("2");
    } else if v == 3 {
        proof {
            reveal_strlit("3");
            assert("3"@ =~= seq![digit_char(3)]);
        }
        s.append("3");
    } else if v == 4 {
        proof {
            reveal_strlit("4");
            assert("4"@ =~= seq![digit_char(4)]);
        }
        s.append("4");
    } else if v == 5 {
        proof {
            reveal_strlit("5");
            assert("5"@ =~= seq![digit_char(5)]);
        }
        s.append("5");
    } else if v == 6 {
        proof {
            reveal_strlit("6");
            assert("6"@ =~= seq![digit_char(6)]);
        }
        s.append("6");
    } else if v == 7 {
        proof {
            reveal_strlit("7");
            assert("7"@ =~= seq![digit_char(7)]);
        }
        s.append("7");
    } else if v == 8 {
        proof {
            reveal_strlit("8");
            assert("8"@ =~= seq![digit_char(8)]);
        }
        s.append("8");
    } else {
        proof {
            reveal_strlit("9");
            assert("9"@ =~= seq![digit_char(9)]);
        }
        s.append("9");
    }
}

fn append_two_digits(s: &mut String, v: u64)
    requires
        v < 100,
    ensures
        final(s)@ == old(s)@ + seq![digit_char(v as int / 10), digit_char(v as int % 10)],
{
    append_digit(s, v / 10);
    append_digit(s, v % 10);
    assert(final(s)@ =~= old(s)@ + seq![digit_char(v as int / 10), digit_char(v as int % 10)]);
}

/// Build the 25-character timestamp with the given field values.
pub fn render_stamp(
    y: u64,
    m: u64,
    d: u64,
    hh: u64,
    mi: u64,
    ss: u64,
    neg: bool,
    oh: u64,
    om: u64,
) -> (r: String)
    requires
        y <= 9999,
        m <= 99,
        d <= 99,
        hh <= 99,
        mi <= 99,
        ss <= 99,
        oh <= 99,
        om <= 99,
    ensures
        r@ == stamp_seq(
            y as int,
            m as int,
            d as int,
            hh as int,
            mi as int,
            ss as int,
            neg,
            oh as int,
            om as int,
        ),
{
    let mut s = String::new();
    proof {
        reveal_strlit("-");
        reveal_strlit("T");
        reveal_strlit(":");
        reveal_strlit("+");
    }
    append_two_digits(&mut s, y / 100);
    append_two_digits(&mut s, y % 100);
    s.append("-");
    append_two_digits(&mut s, m);
    s.append("-");
    append_two_digits(&mut s, d);
    s.append("T");
    append_two_digits(&mut s, hh);
    s.append(":");
    append_two_digits(&mut s, mi);
    s.append(":");
    append_two_digits(&mut s, ss);
    if neg {
        s.append("-");
    } else {
        s.append("+");
    }
    append_two_digits(&mut s, oh);
    s.append(":");
    append_two_digits(&mut s, om);
    proof {
        assert("-"@.len() == 1 && "T"@.len() == 1 && ":"@.len() == 1 && "+"@.len() == 1);
        assert(s@ =~= stamp_seq(
            y as int,
            m as int,
            d as int,
            hh as int,
            mi as int,
            ss as int,
            neg,
            oh as int,
            om as int,
        ));
    }
    s
}

/// Reading back two rendered digits recovers the value.
proof fn lemma_two_digit_value(v: int)
    requires
        0 <= v < 100,
    ensures
        digit_value(digit_char(v / 10)) * 10 + digit_value(digit_char(v % 10)) == v,
{
    vstd::arithmetic::div_mod::lemma_fundamental_div_mod(v, 10);
}

/// A stamp rendered from in-range fields is well formed and denotes the
/// instant those fields name: the round trip through the profile is exact.
pub proof fn lemma_stamp_seq_denotes(
    y: int,
    m: int,
    d: int,
    hh: int,
    mi: int,
    ss: int,
    neg: bool,
    oh: int,
    om: int,
)
    requires
        crate::calendar::valid_civil(y, m, d),
        0 <= hh <= 23,
        0 <= mi <= 59,
        0 <= ss <= 59,
        0 <= om <= 59,
        0 <= oh,
        oh <= 23 || (oh == 24 && om == 0),
    ensures
        rfc3339_denotes(stamp_seq(y, m, d, hh, mi, ss, neg, oh, om)) == Some(
            (day_index(y, m, d) - EPOCH_DAY_INDEX as int) * 86400 + hh * 3600 + mi * 60 + ss - (if neg {
                -1int
            } else {
                1int
            }) * (oh * 3600 + om * 60),
        ),
{
    let s = stamp_seq(y, m, d, hh, mi, ss, neg, oh, om);
    vstd::arithmetic::div_mod::lemma_fundamental_div_mod(y, 100);
    lemma_two_digit_value(y / 100);
    lemma_two_digit_value(y % 100);
    lemma_two_digit_value(m);
    lemma_two_digit_value(d);
    lemma_two_digit_value(hh);
    lemma_two_digit_value(mi);
    lemma_two_digit_value(ss);
    lemma_two_digit_value(oh);
    lemma_two_digit_value(om);
    assert(well_formed_stamp(s));
    assert(stamp_year(s) == y);
    assert(stamp_month(s) == m);
    assert(stamp_day(s) == d);
    assert(stamp_hour(s) == hh);
    assert(stamp_minute(s) == mi);
    assert(stamp_second(s) == ss);
    assert(num2(s, 20) == oh && num2(s, 23) == om);
    assert(stamp_fields_ok(s));
    assert(stamp_offset(s) == (if neg {
        -1int
    } else {
        1int
    }) * (oh * 3600 + om * 60));
}

fn digit_of(c: char) -> (r: Option<u64>)
    ensures
        match r {
            Some(v) => is_digit_char(c) && v as int == digit_value(c) && v < 10,
            None => !is_digit_char(c),
        },
{
    match c {
        '0' => Some(0),
        '1' => Some(1),
        '2' => Some(2),
        '3' => Some(3),
        '4' => Some(4),
        '5' => Some(5),
        '6' => Some(6),
        '7' => Some(7),
        '8' => Some(8),
        '9' => Some(9),
        _ => None,
    }
}

fn read_two(s: &str, i: usize) -> (r: Option<u64>)
    requires
        i + 2 <= s@.len(),
        i + 2 <= usize::MAX,
    ensures
        match r {
            Some(v) => two_digits_at(s@, i as int) && v as int == num2(s@, i as int) && v <= 99,
            None => !two_digits_at(s@, i as int),
        },
{
    let c0 = s.get_char(i);
    let c1 = s.get_char(i + 1);
    match (digit_of(c0), digit_of(c1)) {
        (Some(a), Some(b)) => Some(a * 10 + b),
        _ => None,
    }
}

fn char_at_is(s: &str, i: usize, c: char) -> (r: bool)
    requires
        i < s@.len(),
    ensures
        r == (s@[i as int] == c),
{
    s.get_char(i) == c
}

/// Parse a timestamp of the profile back to the instant it denotes; yields
/// nothing on any other input.
pub fn rfc3339_to_epoch(s: &str) -> (r: Option<i64>)
    ensures
        match r {
            Some(v) => rfc3339_denotes(s@) == Some(v as int),
            None => rfc3339_denotes(s@) is None,
        },
{
    if s.unicode_len() != 25 {
        return None;
    }
    if !(char_at_is(s, 4, '-') && char_at_is(s, 7, '-') && char_at_is(s, 10, 'T') && char_at_is(
        s,
        13,
        ':',
    ) && char_at_is(s, 16, ':') && char_at_is(s, 22, ':')) {
        return None;
    }
    let plus = char_at_is(s, 19, '+');
    let minus = char_at_is(s, 19, '-');
    if !plus && !minus {
        return None;
    }
    let y_hi = match read_two(s, 0) {
        Some(v) => v,
        None => { return None },
    };
    let y_lo = match read_two(s, 2) {
        Some(v) => v,
        None => { return None },
    };
    let m = match read_two(s, 5) {
        Some(v) => v,
        None => { return None },
    };
    let d = match read_two(s, 8) {
        Some(v) => v,
        None => { return None },
    };
    let hh = match read_two(s, 11) {
        Some(v) => v,
        None => { return None },
    };
    let mi = match read_two(s, 14) {
        Some(v) => v,
        None => { return None },
    };
    let ss = match read_two(s, 17) {
        Some(v) => v,
        None => { return None },
    };
    let oh = match read_two(s, 20) {
        Some(v) => v,
        None => { return None },
    };
    let om = match read_two(s, 23) {
        Some(v) => v,
        None => { return None },
    };
    let y = y_hi * 100 + y_lo;
    if !(1 <= m && m <= 12) {
        return None;
    }
    if !(1 <= d && d <= crate::calendar::month_length_x(y, m)) {
        return None;
    }
    if !(hh <= 23 && mi <= 59 && ss <= 59 && om <= 59) {
        return None;
    }
    if !(oh <= 23 || (oh == 24 && om == 0)) {
        return None;
    }
    let dby = crate::calendar::days_before_year_x(y);
    let dbm = crate::calendar::days_before_month_x(y, m);
    proof {
        crate::calendar::lemma_days_before_year_bound(y as int);
        crate::calendar::lemma_days_before_month_bound(y as int, m as int);
    }
    let di: i64 = (dby + dbm + (d - 1)) as i64;
    let tod: i64 = (hh * 3600 + mi * 60 + ss) as i64;
    let off: i64 = (oh * 3600 + om * 60) as i64;
    let signed_off: i64 = if minus {
        -off
    } else {
        off
    };
    let v: i64 = (di - EPOCH_DAY_INDEX as i64) * 86400 + tod - signed_off;
    proof {
        assert(well_formed_stamp(s@));
        assert(stamp_year(s@) == y as int);
        assert(stamp_month(s@) == m as int);
        assert(stamp_day(s@) == d as int);
        assert(stamp_fields_ok(s@));
        assert(day_index(y as int, m as int, d as int) == di as int);
        assert(num2(s@, 20) == oh as int);
        assert(num2(s@, 23) == om as int);
        assert(off as int == oh as int * 3600 + om as int * 60);
        if minus {
            assert(s@[19] == '-');
            assert(stamp_offset(s@) == -1 * (num2(s@, 20) * 3600 + num2(s@, 23) * 60));
        } else {
            assert(s@[19] == '+');
            assert(stamp_offset(s@) == 1 * (num2(s@, 20) * 3600 + num2(s@, 23) * 60));
        }
        assert(stamp_offset(s@) == signed_off as int);
        assert(stamp_instant(s@) == v as int);
    }
    Some(v)
}

} // verus!
