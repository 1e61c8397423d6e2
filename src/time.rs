//! Record time stamps: a calendar date and a time of day to the second, and the two
//! ways they are written: `YYYY-MM-DDTHH:MM:SS` in the record list, and
//! `YYYYMMDD_HHMMSS` in a backup file's name.
use vstd::prelude::*;
use vstd::string::StringExecFns;

verus! {

/// A date of the proleptic Gregorian calendar and a time of day, to the second. The
/// derived order compares year first and second last, which is the order of time.
#[derive(Clone, Copy, Debug, PartialEq, Eq, Structural, PartialOrd, Ord)]
pub struct Timestamp {
    pub year: u32,
    pub month: u32,
    pub day: u32,
    pub hour: u32,
    pub minute: u32,
    pub second: u32,
}

pub open spec fn is_leap_year(y: int) -> bool {
    y % 4 == 0 && (y % 100 != 0 || y % 400 == 0)
}

pub open spec fn days_in_month(y: int, m: int) -> int {
    if m == 2 {
        if is_leap_year(y) { 29 } else { 28 }
    } else if m == 4 || m == 6 || m == 9 || m == 11 {
        30
    } else {
        31
    }
}

impl Timestamp {
    /// A real date with a four-digit year, and a time of day.
    pub open spec fn wf(self) -> bool {
        &&& self.year <= 9999
        &&& 1 <= self.month <= 12
        &&& 1 <= self.day <= days_in_month(self.year as int, self.month as int)
        &&& self.hour < 24
        &&& self.minute < 60
        &&& self.second < 60
    }

    pub fn is_valid(&self) -> (r: bool)
        ensures
            r == self.wf(),
    {
        if self.year > 9999 || self.month < 1 || self.month > 12 || self.day < 1 {
            return false;
        }
        let y = self.year;
        let leap = y % 4 == 0 && (y % 100 != 0 || y % 400 == 0);
        let m = self.month;
        let days: u32 = if m == 2 {
            if leap { 29 } else { 28 }
        } else if m == 4 || m == 6 || m == 9 || m == 11 {
            30
        } else {
            31
        };
        self.day <= days && self.hour < 24 && self.minute < 60 && self.second < 60
    }
}

/// The character of the decimal digit `d`.
pub open spec fn digit_char(d: int) -> char {
    if d == 0 {
        '0'
    } else if d == 1 {
        '1'
    } else if d == 2 {
        '2'
    } else if d == 3 {
        '3'
    } else if d == 4 {
        '4'
    } else if d == 5 {
        '5'
    } else if d == 6 {
        '6'
    } else if d == 7 {
        '7'
    } else if d == 8 {
        '8'
    } else {
        '9'
    }
}

/// `n` in two digits, zero-padded.
pub open spec fn digits2(n: int) -> Seq<char> {
    seq![digit_char(n / 10), digit_char(n % 10)]
}

/// `n` in four digits, zero-padded.
pub open spec fn digits4(n: int) -> Seq<char> {
    seq![digit_char(n / 1000), digit_char((n / 100) % 10), digit_char((n / 10) % 10), digit_char(n % 10)]
}

/// `YYYY-MM-DDTHH:MM:SS`.
pub open spec fn dto_time_text(t: Timestamp) -> Seq<char> {
    digits4(t.year as int) + seq!['-'] + digits2(t.month as int) + seq!['-'] + digits2(t.day as int) + seq!['T']
        + digits2(t.hour as int) + seq![':'] + digits2(t.minute as int) + seq![':'] + digits2(t.second as int)
}

/// `YYYYMMDD_HHMMSS`.
pub open spec fn backup_time_text(t: Timestamp) -> Seq<char> {
    digits4(t.year as int) + digits2(t.month as int) + digits2(t.day as int) + seq!['_'] + digits2(t.hour as int)
        + digits2(t.minute as int) + digits2(t.second as int)
}

pub open spec fn is_dec(c: char) -> bool {
    48 <= c as u32 <= 57
}

pub open spec fn dval(c: char) -> int {
    c as u32 - 48
}

pub open spec fn field2(s: Seq<char>, i: int) -> int {
    dval(s[i]) * 10 + dval(s[i + 1])
}

pub open spec fn field4(s: Seq<char>, i: int) -> int {
    dval(s[i]) * 1000 + dval(s[i + 1]) * 100 + dval(s[i + 2]) * 10 + dval(s[i + 3])
}

/// Nineteen characters: digits with `-`, `-`, `T`, `:`, `:` in between.
pub open spec fn time_shape(s: Seq<char>) -> bool {
    &&& s.len() == 19
    &&& s[4] == '-' && s[7] == '-' && s[10] == 'T' && s[13] == ':' && s[16] == ':'
    &&& forall|i: int| 0 <= i < 19 && i != 4 && i != 7 && i != 10 && i != 13 && i != 16 ==> is_dec(#[trigger] s[i])
}

pub open spec fn time_fields(s: Seq<char>) -> Timestamp {
    Timestamp {
        year: field4(s, 0) as u32,
        month: field2(s, 5) as u32,
        day: field2(s, 8) as u32,
        hour: field2(s, 11) as u32,
        minute: field2(s, 14) as u32,
        second: field2(s, 17) as u32,
    }
}

/// The time stamp that the text `s` gives as `YYYY-MM-DDTHH:MM:SS`, if it is one.
pub open spec fn parse_time_spec(s: Seq<char>) -> Option<Timestamp> {
    if time_shape(s) && time_fields(s).wf() {
        Some(time_fields(s))
    } else {
        None
    }
}

fn digit_str(d: u32) -> (r: &'static str)
    requires
        d < 10,
    ensures
        r@ == seq![digit_char(d as int)],
{
    proof {
        reveal_strlit("0");
        reveal_strlit("1");
        reveal_strlit("2");
        reveal_strlit("3");
        reveal_strlit("4");
        reveal_strlit("5");
        reveal_strlit("6");
        reveal_strlit("7");
        reveal_strlit("8");
        reveal_strlit("9");
    }
    if d == 0 {
        "0"
    } else if d == 1 {
        "1"
    } else if d == 2 {
        "2"
    } else if d == 3 {
        "3"
    } else if d == 4 {
        "4"
    } else if d == 5 {
        "5"
    } else if d == 6 {
        "6"
    } else if d == 7 {
        "7"
    } else if d == 8 {
        "8"
    } else {
        "9"
    }
}

fn append_digits2(s: &mut String, n: u32)
    requires
        n < 100,
    ensures
        final(s)@ == old(s)@ + digits2(n as int),
{
    let ghost s0 = s@;
    s.append(digit_str(n / 10));
    s.append(digit_str(n % 10));
    assert(s@ =~= s0 + digits2(n as int));
}

fn append_digits4(s: &mut String, n: u32)
    requires
        n < 10000,
    ensures
        final(s)@ == old(s)@ + digits4(n as int),
{
    let ghost s0 = s@;
    s.append(digit_str(n / 1000));
    s.append(digit_str((n / 100) % 10));
    s.append(digit_str((n / 10) % 10));
    s.append(digit_str(n % 10));
    assert(s@ =~= s0 + digits4(n as int));
}

fn append_char_str(s: &mut String, c: &str)
    ensures
        final(s)@ == old(s)@ + c@,
{
    s.append(c);
}

/// Writes a record's time stamp, `YYYY-MM-DDTHH:MM:SS`.
pub fn record_time_text(t: &Timestamp) -> (r: String)
    requires
        t.wf(),
    ensures
        r@ == dto_time_text(*t),
{
    proof {
        reveal_strlit("-");
        reveal_strlit("T");
        reveal_strlit(":");
    }
    let mut r = String::new();
    append_digits4(&mut r, t.year);
    append_char_str(&mut r, "-");
    append_digits2(&mut r, t.month);
    append_char_str(&mut r, "-");
    append_digits2(&mut r, t.day);
    append_char_str(&mut r, "T");
    append_digits2(&mut r, t.hour);
    append_char_str(&mut r, ":");
    append_digits2(&mut r, t.minute);
    append_char_str(&mut r, ":");
    append_digits2(&mut r, t.second);
    assert(r@ =~= dto_time_text(*t));
    r
}

/// The time stamp of a backup file's name, `YYYYMMDD_HHMMSS`.
pub fn backup_stamp(t: &Timestamp) -> (r: String)
    requires
        t.wf(),
    ensures
        r@ == backup_time_text(*t),
{
    proof {
        reveal_strlit("_");
    }
    let mut r = String::new();
    append_digits4(&mut r, t.year);
    append_digits2(&mut r, t.month);
    append_digits2(&mut r, t.day);
    append_char_str(&mut r, "_");
    append_digits2(&mut r, t.hour);
    append_digits2(&mut r, t.minute);
    append_digits2(&mut r, t.second);
    assert(r@ =~= backup_time_text(*t));
    r
}

fn dec_at(s: &str, i: usize) -> (r: Option<u32>)
    requires
        i < s@.len(),
    ensures
        r is Some == is_dec(s@[i as int]),
        r matches Some(v) ==> v == dval(s@[i as int]) && v < 10,
{
    let u = s.get_char(i) as u32;
    if 48 <= u && u <= 57 {
        Some(u - 48)
    } else {
        None
    }
}

/// Reads a record's time stamp, `YYYY-MM-DDTHH:MM:SS` exactly, of a real date.
pub fn parse_record_time(s: &str) -> (r: Option<Timestamp>)
    ensures
        r == parse_time_spec(s@),
{
    if s.unicode_len() != 19 {
        return None;
    }
    if s.get_char(4) != '-' || s.get_char(7) != '-' || s.get_char(10) != 'T' || s.get_char(13) != ':'
        || s.get_char(16) != ':' {
        return None;
    }
    let mut d: Vec<u32> = Vec::new();
    let mut i: usize = 0;
    while i < 19
        invariant
            i <= 19,
            s@.len() == 19,
            d@.len() == i,
            forall|j: int| 0 <= j < i && j != 4 && j != 7 && j != 10 && j != 13 && j != 16 ==> is_dec(#[trigger] s@[j])
                && d@[j] == dval(s@[j]) && d@[j] < 10,
        decreases 19 - i,
    {
        let ghost d0 = d@;
        if i == 4 || i == 7 || i == 10 || i == 13 || i == 16 {
            d.push(0);
        } else {
            match dec_at(s, i) {
                Some(v) => d.push(v),
                None => {
                    return None;
                },
            }
        }
        proof {
            assert forall|j: int| 0 <= j < i + 1 && j != 4 && j != 7 && j != 10 && j != 13 && j != 16 implies is_dec(
                #[trigger] s@[j],
            ) && d@[j] == dval(s@[j]) && d@[j] < 10 by {
                if j < i {
                    assert(d@[j] == d0[j]);
                }
            }
        }
        i = i + 1;
    }
    let t = Timestamp {
        year: d[0] * 1000 + d[1] * 100 + d[2] * 10 + d[3],
        month: d[5] * 10 + d[6],
        day: d[8] * 10 + d[9],
        hour: d[11] * 10 + d[12],
        minute: d[14] * 10 + d[15],
        second: d[17] * 10 + d[18],
    };
    assert(t == time_fields(s@));
    if t.is_valid() {
        Some(t)
    } else {
        None
    }
}

proof fn lemma_digit_char(d: int)
    requires
        0 <= d < 10,
    ensures
        is_dec(digit_char(d)),
        dval(digit_char(d)) == d,
{
}

proof fn lemma_digits2(n: int)
    requires
        0 <= n < 100,
    ensures
        is_dec(digits2(n)[0]) && is_dec(digits2(n)[1]),
        field2(digits2(n), 0) == n,
{
    lemma_digit_char(n / 10);
    lemma_digit_char(n % 10);
}

proof fn lemma_digits4(n: int)
    requires
        0 <= n < 10000,
    ensures
        is_dec(digits4(n)[0]) && is_dec(digits4(n)[1]) && is_dec(digits4(n)[2]) && is_dec(digits4(n)[3]),
        field4(digits4(n), 0) == n,
{
    let a = n / 1000;
    let b = (n / 100) % 10;
    let c = (n / 10) % 10;
    let e = n % 10;
    lemma_digit_char(a);
    lemma_digit_char(b);
    lemma_digit_char(c);
    lemma_digit_char(e);
    assert(n == a * 1000 + b * 100 + c * 10 + e) by (nonlinear_arith)
        requires
            0 <= n < 10000,
            a == n / 1000,
            b == (n / 100) % 10,
            c == (n / 10) % 10,
            e == n % 10,
    ;
    let s = digits4(n);
    assert(dval(s[0]) == a && dval(s[1]) == b && dval(s[2]) == c && dval(s[3]) == e);
}

/// Reading back the text written for a time stamp gives that time stamp.
pub proof fn lemma_time_round_trip(t: Timestamp)
    requires
        t.wf(),
    ensures
        parse_time_spec(dto_time_text(t)) == Some(t),
{
    let s = dto_time_text(t);
    let y = digits4(t.year as int);
    let mo = digits2(t.month as int);
    let da = digits2(t.day as int);
    let h = digits2(t.hour as int);
    let mi = digits2(t.minute as int);
    let se = digits2(t.second as int);
    lemma_digits4(t.year as int);
    lemma_digits2(t.month as int);
    lemma_digits2(t.day as int);
    lemma_digits2(t.hour as int);
    lemma_digits2(t.minute as int);
    lemma_digits2(t.second as int);
    assert(s =~= seq![y[0], y[1], y[2], y[3], '-', mo[0], mo[1], '-', da[0], da[1], 'T', h[0], h[1], ':', mi[0], mi[1], ':', se[0], se[1]]);
    assert(field4(s, 0) == field4(y, 0));
    assert(field2(s, 5) == field2(mo, 0));
    assert(field2(s, 8) == field2(da, 0));
    assert(field2(s, 11) == field2(h, 0));
    assert(field2(s, 14) == field2(mi, 0));
    assert(field2(s, 17) == field2(se, 0));
    assert(time_fields(s) == t);
}

} // verus!
