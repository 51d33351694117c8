//! Day labels ("Tonight", "Fri 07") and temperature texts of a forecast card.

use vstd::prelude::*;
use vstd::string::{StrSliceExecFns, StringExecFns};
use crate::date::{valid_date, Date};
use crate::error::WeatherError;

verus! {

/// The characters that `str::split_whitespace` splits at (Unicode White_Space).
pub open spec fn is_space(c: char) -> bool {
    let n = c as u32;
    (9 <= n <= 13) || n == 32 || n == 0x85 || n == 0xa0 || n == 0x1680 || (0x2000 <= n <= 0x200a)
        || n == 0x2028 || n == 0x2029 || n == 0x202f || n == 0x205f || n == 0x3000
}

/// The first index at or after `i` that does not hold a space.
pub open spec fn skip_space(s: Seq<char>, i: int) -> int
    decreases s.len() - i,
{
    if 0 <= i < s.len() && is_space(s[i]) {
        skip_space(s, i + 1)
    } else {
        i
    }
}

/// The first index at or after `i` that holds a space.
pub open spec fn token_end(s: Seq<char>, i: int) -> int
    decreases s.len() - i,
{
    if 0 <= i < s.len() && !is_space(s[i]) {
        token_end(s, i + 1)
    } else {
        i
    }
}

/// The second whitespace-separated token of `s`, if it has one.
pub open spec fn second_token(s: Seq<char>) -> Option<Seq<char>> {
    let first = skip_space(s, 0);
    let second = skip_space(s, token_end(s, first));
    if second < s.len() {
        Some(s.subrange(second, token_end(s, second)))
    } else {
        None
    }
}

pub open spec fn is_digit(c: char) -> bool {
    48 <= (c as u32) <= 57
}

pub open spec fn digits_value(s: Seq<char>) -> nat
    decreases s.len(),
{
    if s.len() == 0 {
        0
    } else {
        digits_value(s.drop_last()) * 10 + ((s.last() as u32) - 48) as nat
    }
}

/// `s` without one leading `'+'`.
pub open spec fn unsigned_digits(s: Seq<char>) -> Seq<char> {
    if s.len() > 0 && s[0] == '+' {
        s.drop_first()
    } else {
        s
    }
}

/// What `str::parse::<u32>` gives: an optional `'+'` and then one or more
/// decimal digits whose value fits in 32 bits.
pub open spec fn parse_u32(s: Seq<char>) -> Option<nat> {
    let b = unsigned_digits(s);
    if b.len() > 0 && (forall|i: int| 0 <= i < b.len() ==> is_digit(#[trigger] b[i]))
        && digits_value(b) <= u32::MAX {
        Some(digits_value(b))
    } else {
        None
    }
}

/// The year and month that a day of month refers to, seen from `today`: the
/// current month, or the next one when the day has already passed.
pub open spec fn resolved_month(day: nat, today: Date) -> (int, int) {
    if day < today.day {
        if today.month == 12 {
            (today.year + 1, 1)
        } else {
            (today.year as int, today.month + 1)
        }
    } else {
        (today.year as int, today.month as int)
    }
}

/// The date that a day label stands for, seen from `today`.
pub open spec fn inferred_date(label: Seq<char>, today: Date) -> Result<Date, WeatherError> {
    match second_token(label) {
        None => Ok(today),
        Some(tok) => match parse_u32(tok) {
            None => Err(WeatherError::InvalidDate),
            Some(day) => {
                let (y, m) = resolved_month(day, today);
                if valid_date(y, m, day as int) {
                    Ok(Date { year: y as i32, month: m as u32, day: day as u32 })
                } else {
                    Err(WeatherError::InvalidDate)
                }
            },
        },
    }
}

/// `s` without the degree signs at its end.
pub open spec fn without_degree(s: Seq<char>) -> Seq<char>
    decreases s.len(),
{
    if s.len() > 0 && s.last() == '°' {
        without_degree(s.drop_last())
    } else {
        s
    }
}

fn is_space_char(c: char) -> (r: bool)
    ensures
        r == is_space(c),
{
    let n = c as u32;
    (9 <= n && n <= 13) || n == 32 || n == 0x85 || n == 0xa0 || n == 0x1680 || (0x2000 <= n && n
        <= 0x200a) || n == 0x2028 || n == 0x2029 || n == 0x202f || n == 0x205f || n == 0x3000
}

/// Walks from `i` over spaces (`space == true`) or over non-spaces.
fn scan(s: &str, len: usize, i: usize, space: bool) -> (r: usize)
    requires
        len == s@.len(),
        i <= len,
    ensures
        space ==> r == skip_space(s@, i as int),
        !space ==> r == token_end(s@, i as int),
        i <= r <= len,
{
    let mut j: usize = i;
    loop
        invariant
            len == s@.len(),
            i <= j <= len,
            space ==> skip_space(s@, j as int) == skip_space(s@, i as int),
            !space ==> token_end(s@, j as int) == token_end(s@, i as int),
        decreases len - j,
    {
        if j == len || is_space_char(s.get_char(j)) != space {
            return j;
        }
        j = j + 1;
    }
}

/// Reads a day of month as `str::parse::<u32>` does.
fn parse_day(tok: &str) -> (r: Option<u32>)
    ensures
        r is Some <==> parse_u32(tok@) is Some,
        r matches Some(v) ==> parse_u32(tok@) == Some(v as nat),
{
    let len = tok.unicode_len();
    let start: usize = if len > 0 && tok.get_char(0) == '+' { 1 } else { 0 };
    let ghost body = unsigned_digits(tok@);
    assert(body =~= tok@.subrange(start as int, len as int));
    let mut j: usize = start;
    let mut value: u64 = 0;
    let mut overflow = false;
    while j < len
        invariant
            len == tok@.len(),
            start <= j <= len,
            body == tok@.subrange(start as int, len as int),
            body == unsigned_digits(tok@),
            forall|k: int| start <= k < j ==> is_digit(#[trigger] tok@[k]),
            !overflow ==> value == digits_value(tok@.subrange(start as int, j as int)),
            !overflow ==> value <= u32::MAX,
            overflow ==> digits_value(tok@.subrange(start as int, j as int)) > u32::MAX,
        decreases len - j,
    {
        let c = tok.get_char(j);
        if !((c as u32) >= 48 && (c as u32) <= 57) {
            assert(body[j - start] == tok@[j as int]);
            assert(!is_digit(body[j - start]));
            return None;
        }
        let ghost prev = tok@.subrange(start as int, j as int);
        let ghost next = tok@.subrange(start as int, j + 1);
        assert(next.drop_last() =~= prev);
        let d = (c as u32 - 48) as u64;
        if !overflow {
            value = value * 10 + d;
            if value > 0xffff_ffff {
                overflow = true;
            }
        } else {
            let ghost p = digits_value(prev);
            assert(p * 10 + d >= p) by (nonlinear_arith)
                requires p >= 0, d >= 0;
        }
        j = j + 1;
    }
    if j == start || overflow {
        None
    } else {
        Some(value as u32)
    }
}

/// The date that `label` stands for, seen from `today`: `today` itself for a
/// bare label such as "Tonight"; else the day of month in its second token,
/// in this month, or in the next one when that day has already passed.
pub fn infer_date(label: &str, today: &Date) -> (r: Result<Date, WeatherError>)
    requires
        today.wf(),
    ensures
        r == inferred_date(label@, *today),
        r matches Ok(d) ==> d.wf(),
{
    let len = label.unicode_len();
    let first = scan(label, len, 0, true);
    let second = scan(label, len, scan(label, len, first, false), true);
    if second == len {
        return Ok(*today);
    }
    let end = scan(label, len, second, false);
    let tok = label.substring_char(second, end);
    match parse_day(tok) {
        None => Err(WeatherError::InvalidDate),
        Some(day) => {
            let (year, month) = if day < today.day {
                if today.month == 12 {
                    (today.year + 1, 1u32)
                } else {
                    (today.year, today.month + 1)
                }
            } else {
                (today.year, today.month)
            };
            match Date::new(year, month, day) {
                Some(d) => Ok(d),
                None => Err(WeatherError::InvalidDate),
            }
        },
    }
}

/// `text` with the degree signs at its end taken off.
pub fn strip_degree(text: &str) -> (r: String)
    ensures
        r@ == without_degree(text@),
{
    let len = text.unicode_len();
    let mut end: usize = len;
    assert(text@.subrange(0, len as int) =~= text@);
    while end > 0 && text.get_char(end - 1) == '°'
        invariant
            len == text@.len(),
            end <= len,
            without_degree(text@.subrange(0, end as int)) == without_degree(text@),
        decreases end,
    {
        assert(text@.subrange(0, end as int).drop_last() =~= text@.subrange(0, end - 1));
        end = end - 1;
    }
    String::from_str(text.substring_char(0, end))
}

/// A label without a second token ("Tonight", "Today") stands for today.
pub proof fn bare_label_is_today(label: Seq<char>, today: Date)
    requires
        today.wf(),
        second_token(label) is None,
    ensures
        inferred_date(label, today) == Ok::<Date, WeatherError>(today),
{
}

/// A day of month not before today's stands for that day of the current
/// month and year (an error where the month has no such day).
pub proof fn later_day_is_this_month(label: Seq<char>, today: Date, tok: Seq<char>, day: nat)
    requires
        today.wf(),
        second_token(label) == Some(tok),
        parse_u32(tok) == Some(day),
        day >= today.day,
    ensures
        inferred_date(label, today) == if valid_date(today.year as int, today.month as int, day as int) {
            Ok(Date { year: today.year, month: today.month, day: day as u32 })
        } else {
            Err(WeatherError::InvalidDate)
        },
{
}

/// A day of month before today's stands for that day of the next month: the
/// same year's, or January of the next year when today is in December (an
/// error where the month has no such day).
pub proof fn earlier_day_is_next_month(label: Seq<char>, today: Date, tok: Seq<char>, day: nat)
    requires
        today.wf(),
        second_token(label) == Some(tok),
        parse_u32(tok) == Some(day),
        day < today.day,
    ensures
        ({
            let (y, m) = if today.month == 12 {
                (today.year + 1, 1int)
            } else {
                (today.year as int, today.month + 1)
            };
            inferred_date(label, today) == if valid_date(y, m, day as int) {
                Ok(Date { year: y as i32, month: m as u32, day: day as u32 })
            } else {
                Err(WeatherError::InvalidDate)
            }
        }),
{
}

} // verus!
