//! Calendar dates of posts.
use vstd::prelude::*;
use crate::text::{chars_of, trim, trim_range};

verus! {

pub open spec fn is_leap_year(y: int) -> bool {
    (y % 4 == 0 && y % 100 != 0) || y % 400 == 0
}

pub open spec fn days_in_month(y: int, m: int) -> int {
    if m == 2 {
        if is_leap_year(y) {
            29
        } else {
            28
        }
    } else if m == 4 || m == 6 || m == 9 || m == 11 {
        30
    } else {
        31
    }
}

/// A day of the proleptic Gregorian calendar, in years 1 to 9999.
#[derive(Clone, Copy, PartialEq, Eq, Debug)]
pub struct Date {
    pub year: i32,
    pub month: u32,
    pub day: u32,
}

pub open spec fn is_valid_date(year: int, month: int, day: int) -> bool {
    &&& 1 <= year <= 9999
    &&& 1 <= month <= 12
    &&& 1 <= day <= days_in_month(year, month)
}

pub open spec fn digit_char(n: int) -> char {
    seq!['0', '1', '2', '3', '4', '5', '6', '7', '8', '9'][n]
}

/// `n` in two decimal digits.
pub open spec fn two_digits(n: int) -> Seq<char> {
    seq![digit_char((n / 10) % 10), digit_char(n % 10)]
}

/// `n` in four decimal digits.
pub open spec fn four_digits(n: int) -> Seq<char> {
    seq![
        digit_char((n / 1000) % 10),
        digit_char((n / 100) % 10),
        digit_char((n / 10) % 10),
        digit_char(n % 10),
    ]
}

impl Date {
    pub open spec fn valid(&self) -> bool {
        is_valid_date(self.year as int, self.month as int, self.day as int)
    }

    /// The date written day first, as `dd/mm/yyyy`.
    pub open spec fn dmy_text(&self) -> Seq<char> {
        two_digits(self.day as int) + seq!['/'] + two_digits(self.month as int) + seq!['/']
            + four_digits(self.year as int)
    }

    /// The date with these fields, if it exists.
    pub fn new(year: i32, month: u32, day: u32) -> (r: Option<Date>)
        ensures
            r is Some <==> is_valid_date(year as int, month as int, day as int),
            r matches Some(d) ==> d.year == year && d.month == month && d.day == day,
    {
        if year < 1 || year > 9999 {
            return None;
        }
        if date_exists(year, month, day) {
            Some(Date { year, month, day })
        } else {
            None
        }
    }

    /// The date as `dd/mm/yyyy`.
    pub fn format_dmy(&self) -> (r: String)
        requires
            self.valid(),
        ensures
            r@ == self.dmy_text(),
    {
        format_with_chrono(self.year, self.month, self.day)
    }
}

/// Relies on chrono's `NaiveDate::from_ymd_opt`: within years 1 to 9999 it
/// gives a date exactly when the month is 1 to 12 and the day is within that
/// month of the proleptic Gregorian calendar.
#[verifier::external_body]
fn date_exists(year: i32, month: u32, day: u32) -> (r: bool)
    ensures
        1 <= year <= 9999 ==> r == is_valid_date(year as int, month as int, day as int),
{
    chrono::NaiveDate::from_ymd_opt(year, month, day).is_some()
}

/// Relies on chrono's `NaiveDate::from_ymd_opt`, which accepts every valid
/// date of years 1 to 9999, and on `format("%d/%m/%Y")`, which writes the day
/// and the month zero-padded to two digits and the year zero-padded to four.
#[verifier::external_body]
fn format_with_chrono(year: i32, month: u32, day: u32) -> (r: String)
    requires
        is_valid_date(year as int, month as int, day as int),
    ensures
        r@ == two_digits(day as int) + seq!['/'] + two_digits(month as int) + seq!['/']
            + four_digits(year as int),
{
    chrono::NaiveDate::from_ymd_opt(year, month, day).unwrap().format("%d/%m/%Y").to_string()
}

pub open spec fn is_digit(c: char) -> bool {
    '0' <= c <= '9'
}

/// The value of a run of decimal digits.
pub open spec fn digits_value(s: Seq<char>) -> int
    decreases s.len(),
{
    if s.len() == 0 {
        0
    } else {
        digits_value(s.drop_last()) * 10 + (s.last() as u32 - '0' as u32)
    }
}

/// The value of one or more decimal digits.
pub open spec fn unsigned_text(s: Seq<char>) -> Option<int> {
    if s.len() > 0 && forall|i: int| 0 <= i < s.len() ==> #[trigger] is_digit(s[i]) {
        Some(digits_value(s))
    } else {
        None
    }
}

/// An integer as `FromStr` for the unsigned types reads it: an optional
/// `+`, then decimal digits.
pub open spec fn unsigned_with_sign(s: Seq<char>) -> Option<int> {
    if s.len() > 0 && s[0] == '+' {
        unsigned_text(s.drop_first())
    } else {
        unsigned_text(s)
    }
}

/// An integer as `FromStr` for the signed types reads it: an optional `+`
/// or `-`, then decimal digits.
pub open spec fn signed_text(s: Seq<char>) -> Option<int> {
    if s.len() > 0 && s[0] == '-' {
        match unsigned_text(s.drop_first()) {
            Some(v) => Some(-v),
            None => None,
        }
    } else {
        unsigned_with_sign(s)
    }
}

/// Relies on `str::parse::<u32>`: an optional `+`, then decimal digits whose
/// value fits in a `u32`; anything else is an error.
#[verifier::external_body]
fn parse_u32(s: &str) -> (r: Option<u32>)
    ensures
        r is Some <==> (unsigned_with_sign(s@) matches Some(v) && v <= u32::MAX),
        r matches Some(v) ==> unsigned_with_sign(s@) == Some(v as int),
{
    s.parse::<u32>().ok()
}

/// Relies on `str::parse::<i32>`: an optional sign, then decimal digits whose
/// value fits in an `i32`; anything else is an error.
#[verifier::external_body]
fn parse_i32(s: &str) -> (r: Option<i32>)
    ensures
        r is Some <==> (signed_text(s@) matches Some(v) && i32::MIN <= v <= i32::MAX),
        r matches Some(v) ==> signed_text(s@) == Some(v as int),
{
    s.parse::<i32>().ok()
}

/// `a` equals `b`, where `b` is lower case, ignoring the case of ASCII letters.
pub open spec fn eq_ignore_ascii_case(a: Seq<char>, b: Seq<char>) -> bool {
    &&& a.len() == b.len()
    &&& forall|i: int|
        0 <= i < a.len() ==> #[trigger] a[i] == b[i] || ('a' <= b[i] <= 'z' && a[i] as u32 + 32
            == b[i] as u32)
}

/// Lower-case English name of month `m`, in full.
pub open spec fn month_long_name(m: int) -> Seq<char> {
    if m == 1 {
        "january"@
    } else if m == 2 {
        "february"@
    } else if m == 3 {
        "march"@
    } else if m == 4 {
        "april"@
    } else if m == 5 {
        "may"@
    } else if m == 6 {
        "june"@
    } else if m == 7 {
        "july"@
    } else if m == 8 {
        "august"@
    } else if m == 9 {
        "september"@
    } else if m == 10 {
        "october"@
    } else if m == 11 {
        "november"@
    } else {
        "december"@
    }
}

/// Whether `s` names month `m`: its English name in full or its first
/// three letters, in any ASCII case.
pub open spec fn names_month(s: Seq<char>, m: int) -> bool {
    1 <= m <= 12 && (eq_ignore_ascii_case(s, month_long_name(m)) || eq_ignore_ascii_case(
        s,
        month_long_name(m).take(3),
    ))
}

/// Relies on chrono's `Month: FromStr` and `Month::number_from_month`: an
/// English month name, in full or its first three letters, in any ASCII case,
/// gives the month's number from 1 to 12; anything else is an error.
#[verifier::external_body]
fn month_number(s: &str) -> (r: Option<u32>)
    ensures
        r is Some <==> exists|m: int| names_month(s@, m),
        r matches Some(m) ==> names_month(s@, m as int),
{
    s.parse::<chrono::Month>().ok().map(|m| m.number_from_month())
}

/// Index of the first "de" in `s`.
pub open spec fn find_de(s: Seq<char>) -> Option<int>
    decreases s.len(),
{
    if s.len() < 2 {
        None
    } else if s[0] == 'd' && s[1] == 'e' {
        Some(0)
    } else {
        match find_de(s.drop_first()) {
            Some(i) => Some(i + 1),
            None => None,
        }
    }
}

/// The first three pieces of `s` split at each "de", if there are three.
pub open spec fn de_fields(s: Seq<char>) -> Option<(Seq<char>, Seq<char>, Seq<char>)> {
    match find_de(s) {
        Some(i) => {
            let r1 = s.skip(i + 2);
            match find_de(r1) {
                Some(j) => {
                    let r2 = r1.skip(j + 2);
                    let third = match find_de(r2) {
                        Some(k) => r2.take(k),
                        None => r2,
                    };
                    Some((s.take(i), r1.take(j), third))
                },
                None => None,
            }
        },
        None => None,
    }
}

/// The date written as "<day> de <month> de <year>", with an English month
/// name, if it is a valid date.
pub open spec fn date_from_text(s: Seq<char>) -> Option<Date> {
    match de_fields(s) {
        Some((d, m, y)) => {
            match (unsigned_with_sign(trim(d)), signed_text(trim(y))) {
                (Some(dv), Some(yv)) => {
                    if 0 <= dv <= u32::MAX && i32::MIN <= yv <= i32::MAX && exists|mv: int|
                        names_month(trim(m), mv) {
                        let mv = choose|mv: int| names_month(trim(m), mv);
                        if is_valid_date(yv, mv, dv) {
                            Some(Date { year: yv as i32, month: mv as u32, day: dv as u32 })
                        } else {
                            None
                        }
                    } else {
                        None
                    }
                },
                _ => None,
            }
        },
        None => None,
    }
}

proof fn lemma_month_unique(s: Seq<char>, a: int, b: int)
    requires
        names_month(s, a),
        names_month(s, b),
    ensures
        a == b,
{
    reveal_strlit("january");
    reveal_strlit("february");
    reveal_strlit("march");
    reveal_strlit("april");
    reveal_strlit("may");
    reveal_strlit("june");
    reveal_strlit("july");
    reveal_strlit("august");
    reveal_strlit("september");
    reveal_strlit("october");
    reveal_strlit("november");
    reveal_strlit("december");
    if a != b {
        let la = month_long_name(a);
        let lb = month_long_name(b);
        assert(s.len() >= 3);
        assert(la[0] == s[0] || la[0] as u32 == s[0] as u32 + 32);
        assert(lb[0] == s[0] || lb[0] as u32 == s[0] as u32 + 32);
        assert(la[1] == s[1] || la[1] as u32 == s[1] as u32 + 32);
        assert(lb[1] == s[1] || lb[1] as u32 == s[1] as u32 + 32);
        assert(la[2] == s[2] || la[2] as u32 == s[2] as u32 + 32);
        assert(lb[2] == s[2] || lb[2] as u32 == s[2] as u32 + 32);
    }
}

proof fn lemma_find_de(s: Seq<char>)
    ensures
        find_de(s) matches Some(i) ==> 0 <= i && i + 2 <= s.len(),
    decreases s.len(),
{
    if s.len() >= 2 && !(s[0] == 'd' && s[1] == 'e') {
        lemma_find_de(s.drop_first());
    }
}

/// Index of the first "de" in `chars[lo..]`.
fn find_de_in(chars: &Vec<char>, lo: usize) -> (r: Option<usize>)
    requires
        lo <= chars@.len(),
    ensures
        match find_de(chars@.skip(lo as int)) {
            Some(i) => r == Some((lo + i) as usize),
            None => r is None,
        },
{
    let mut j: usize = lo;
    while j < chars.len() && j + 1 < chars.len()
        invariant
            lo <= j <= chars@.len(),
            find_de(chars@.skip(lo as int)) == match find_de(chars@.skip(j as int)) {
                Some(i) => Some(i + (j - lo)),
                None => None,
            },
        decreases chars@.len() - j,
    {
        if chars[j] == 'd' && chars[j + 1] == 'e' {
            return Some(j);
        }
        assert(chars@.skip(j as int).drop_first() =~= chars@.skip(j + 1));
        j = j + 1;
    }
    None
}

/// Reads a date written as "<day> de <month> de <year>".
pub fn parse_date(date_text: &str) -> (r: Option<Date>)
    ensures
        r == date_from_text(date_text@),
{
    let chars = chars_of(date_text);
    let n = chars.len();
    let ghost s = chars@;
    assert(s.skip(0) =~= s);
    proof {
        lemma_find_de(s);
    }
    let i = match find_de_in(&chars, 0) {
        Some(i) => i,
        None => return None,
    };
    proof {
        lemma_find_de(s.skip(i + 2));
    }
    let j = match find_de_in(&chars, i + 2) {
        Some(j) => j,
        None => return None,
    };
    let ghost r1 = s.skip(i + 2);
    let ghost r2 = r1.skip((j - i - 2) + 2);
    assert(r2 =~= s.skip(j + 2));
    proof {
        lemma_find_de(r2);
    }
    let end = match find_de_in(&chars, j + 2) {
        Some(k) => k,
        None => n,
    };
    assert(s.subrange(0, i as int) =~= s.take(i as int));
    assert(s.subrange(i + 2, j as int) =~= r1.take(j - i - 2));
    assert(s.subrange(j + 2, end as int) =~= match find_de(r2) {
        Some(k) => r2.take(k),
        None => r2,
    });
    let (a1, b1) = trim_range(&chars, 0, i);
    let (a2, b2) = trim_range(&chars, i + 2, j);
    let (a3, b3) = trim_range(&chars, j + 2, end);
    let day_text = date_text.substring_char(a1, b1);
    let month_text = date_text.substring_char(a2, b2);
    let year_text = date_text.substring_char(a3, b3);
    let day = match parse_u32(day_text) {
        Some(v) => v,
        None => return None,
    };
    let month = match month_number(month_text) {
        Some(v) => v,
        None => return None,
    };
    let year = match parse_i32(year_text) {
        Some(v) => v,
        None => return None,
    };
    let ghost third = match find_de(r2) {
        Some(k) => r2.take(k),
        None => r2,
    };
    assert(de_fields(s) == Some((s.take(i as int), r1.take(j - i - 2), third)));
    assert(day_text@ == trim(s.take(i as int)));
    assert(month_text@ == trim(r1.take(j - i - 2)));
    assert(year_text@ == trim(third));
    proof {
        let mv = choose|mv: int| names_month(month_text@, mv);
        lemma_month_unique(month_text@, mv, month as int);
    }
    let r = Date::new(year, month, day);
    assert(names_month(month_text@, month as int));
    let ghost expected = if is_valid_date(year as int, month as int, day as int) {
        Some(Date { year, month, day })
    } else {
        None
    };
    let ghost f = de_fields(s)->0;
    assert(unsigned_with_sign(trim(f.0)) == Some(day as int));
    assert(signed_text(trim(f.2)) == Some(year as int));
    assert(trim(f.1) == month_text@);
    assert(date_from_text(s) == expected);
    r
}

} // verus!
