//! The UTC-time value: a civil date and time with a fixed offset, and its
//! `YYMMDDHHMM[SS](Z|±HHMM)` text form.

use vstd::prelude::*;

verus! {

/// A wall-clock time at a fixed offset from UTC, in minutes east of UTC.
#[derive(Clone, Copy, Debug, PartialEq, Eq, Structural)]
pub struct Timestamp {
    pub year: i32,
    pub month: u8,
    pub day: u8,
    pub hour: u8,
    pub minute: u8,
    pub second: u8,
    pub offset_minutes: i16,
}

pub open spec fn is_leap_year(y: int) -> bool {
    (y % 4 == 0 && y % 100 != 0) || y % 400 == 0
}

pub open spec fn days_in_month(y: int, m: int) -> int {
    if m == 2 {
        if is_leap_year(y) {
            29
        } else {
            28
        }
    } else if m == 4 || m == 6 || m == 9 || m == 11 {
        30
    } else {
        31
    }
}

/// The calendar holds day `d` of month `m` in year `y`.
pub open spec fn date_exists(y: int, m: int, d: int) -> bool {
    1 <= m <= 12 && 1 <= d <= days_in_month(y, m)
}

/// The years that a two-digit year field stands for.
pub open spec fn year_in_window(y: int) -> bool {
    1970 <= y <= 2069
}

impl Timestamp {
    /// The value is a real time whose text form reads back to it.
    pub open spec fn valid(&self) -> bool {
        &&& year_in_window(self.year as int)
        &&& date_exists(self.year as int, self.month as int, self.day as int)
        &&& self.hour < 24
        &&& self.minute < 60
        &&& self.second < 60
        &&& -1440 < self.offset_minutes < 1440
    }
}

/// Two ASCII decimal digits of `n` (0..=99).
pub open spec fn two_digits(n: int) -> Seq<u8> {
    seq![(48 + n / 10) as u8, (48 + n % 10) as u8]
}

pub open spec fn abs_int(n: int) -> int {
    if n < 0 {
        -n
    } else {
        n
    }
}

/// The zone suffix: `Z` for UTC, else a sign and `HHMM`.
pub open spec fn zone_text(off: int) -> Seq<u8> {
    if off == 0 {
        seq![90u8]
    } else {
        seq![if off < 0 { 45u8 } else { 43u8 }] + two_digits(abs_int(off) / 60) + two_digits(
            abs_int(off) % 60,
        )
    }
}

/// `YYMMDDHHMM`, then `SS` only when the seconds are not zero, then the zone.
pub open spec fn utc_text(t: Timestamp) -> Seq<u8> {
    two_digits(t.year as int % 100) + two_digits(t.month as int) + two_digits(t.day as int) + two_digits(
        t.hour as int,
    ) + two_digits(t.minute as int) + (if t.second != 0 {
        two_digits(t.second as int)
    } else {
        Seq::empty()
    }) + zone_text(t.offset_minutes as int)
}

pub open spec fn is_digit(b: u8) -> bool {
    48 <= b <= 57
}

/// The number that the two digits at `s[i]`, `s[i+1]` spell.
pub open spec fn digits_at(s: Seq<u8>, i: int) -> int {
    (s[i] - 48) * 10 + (s[i + 1] - 48)
}

/// A two-digit year read into the window 1970..=2069.
pub open spec fn full_year(yy: int) -> int {
    if yy < 70 {
        2000 + yy
    } else {
        1900 + yy
    }
}

/// The text has the shape `YYMMDDHHMM[SS](Z|±HHMM)` with decimal digits.
pub open spec fn well_shaped(s: Seq<u8>) -> bool {
    let n = s.len();
    let z = if n == 13 || n == 17 {
        12int
    } else {
        10int
    };
    &&& n == 11 || n == 13 || n == 15 || n == 17
    &&& forall|i: int| 0 <= i < z ==> is_digit(#[trigger] s[i])
    &&& (n == 11 || n == 13) ==> s[z] == 90u8
    &&& (n == 15 || n == 17) ==> {
        &&& (s[z] == 43u8 || s[z] == 45u8)
        &&& forall|i: int| z < i < n ==> is_digit(#[trigger] s[i])
    }
}

/// The fields that a well-shaped text spells, before any check of the calendar.
pub open spec fn text_fields(s: Seq<u8>) -> Timestamp {
    let n = s.len();
    let z = if n == 13 || n == 17 {
        12int
    } else {
        10int
    };
    let mag = if n == 15 || n == 17 {
        digits_at(s, z + 1) * 60 + digits_at(s, z + 3)
    } else {
        0
    };
    Timestamp {
        year: full_year(digits_at(s, 0)) as i32,
        month: digits_at(s, 2) as u8,
        day: digits_at(s, 4) as u8,
        hour: digits_at(s, 6) as u8,
        minute: digits_at(s, 8) as u8,
        second: if z == 12 {
            digits_at(s, 10) as u8
        } else {
            0u8
        },
        offset_minutes: (if s[z] == 45u8 {
            -mag
        } else {
            mag
        }) as i16,
    }
}

/// What a UTC-time payload decodes to: `None` where it is not a real time
/// in the text form.
pub open spec fn parse_utc(s: Seq<u8>) -> Option<Timestamp> {
    if well_shaped(s) && text_fields(s).valid() {
        Some(text_fields(s))
    } else {
        None
    }
}

/// Relies on chrono's `NaiveDate::from_ymd_opt`, which accepts exactly the
/// days of the proleptic Gregorian calendar within its year range.
#[verifier::external_body]
fn calendar_has_date(year: i32, month: u8, day: u8) -> (r: bool)
    requires
        year_in_window(year as int),
    ensures
        r == date_exists(year as int, month as int, day as int),
{
    chrono::NaiveDate::from_ymd_opt(year, month as u32, day as u32).is_some()
}

fn push_two_digits(out: &mut Vec<u8>, n: u8)
    requires
        n < 100,
    ensures
        final(out)@ == old(out)@ + two_digits(n as int),
{
    out.push(48 + n / 10);
    out.push(48 + n % 10);
}

/// Reads the two digits at `s[i]`, `s[i+1]`.
fn read_two_digits(s: &[u8], i: usize) -> (r: u8)
    requires
        i + 1 < s@.len(),
        is_digit(s@[i as int]),
        is_digit(s@[i + 1]),
    ensures
        r as int == digits_at(s@, i as int),
        r < 100,
{
    (s[i] - 48) * 10 + (s[i + 1] - 48)
}

impl Timestamp {
    /// Builds a timestamp; `None` where the fields are not a real time in the
    /// window of two-digit years.
    pub fn new(
        year: i32,
        month: u8,
        day: u8,
        hour: u8,
        minute: u8,
        second: u8,
        offset_minutes: i16,
    ) -> (r: Option<Timestamp>)
        ensures
            r == (if (Timestamp { year, month, day, hour, minute, second, offset_minutes }).valid() {
                Some(Timestamp { year, month, day, hour, minute, second, offset_minutes })
            } else {
                None
            }),
    {
        let t = Timestamp { year, month, day, hour, minute, second, offset_minutes };
        if year < 1970 || year > 2069 || hour >= 24 || minute >= 60 || second >= 60
            || offset_minutes <= -1440 || offset_minutes >= 1440 {
            return None;
        }
        if calendar_has_date(year, month, day) {
            Some(t)
        } else {
            None
        }
    }

    /// The text form: `YYMMDDHHMM`, `SS` when the seconds are not zero, then `Z`
    /// for UTC or `±HHMM`.
    pub fn to_text(&self) -> (r: Vec<u8>)
        requires
            self.valid(),
        ensures
            r@ == utc_text(*self),
    {
        let mut out: Vec<u8> = Vec::new();
        push_two_digits(&mut out, (self.year % 100) as u8);
        push_two_digits(&mut out, self.month);
        push_two_digits(&mut out, self.day);
        push_two_digits(&mut out, self.hour);
        push_two_digits(&mut out, self.minute);
        if self.second != 0 {
            push_two_digits(&mut out, self.second);
        }
        if self.offset_minutes == 0 {
            out.push(90);
        } else {
            let mag: i16 = if self.offset_minutes < 0 {
                -self.offset_minutes
            } else {
                self.offset_minutes
            };
            out.push(if self.offset_minutes < 0 { 45 } else { 43 });
            push_two_digits(&mut out, (mag / 60) as u8);
            push_two_digits(&mut out, (mag % 60) as u8);
        }
        proof {
            assert(out@ =~= utc_text(*self));
        }
        out
    }

    /// Reads the text form back; `None` where it is not one.
    pub fn from_text(s: &[u8]) -> (r: Option<Timestamp>)
        ensures
            r == parse_utc(s@),
    {
        let n = s.len();
        if n != 11 && n != 13 && n != 15 && n != 17 {
            return None;
        }
        let z: usize = if n == 13 || n == 17 {
            12
        } else {
            10
        };
        let mut i: usize = 0;
        while i < n
            invariant
                n == s@.len(),
                n == 11 || n == 13 || n == 15 || n == 17,
                z == (if n == 13 || n == 17 { 12usize } else { 10usize }),
                forall|j: int| 0 <= j < i && j != z ==> is_digit(#[trigger] s@[j]),
            decreases n - i,
        {
            if i != z && !(48 <= s[i] && s[i] <= 57) {
                assert(!is_digit(s@[i as int]));
                assert(!well_shaped(s@)) by {
                    if i < z {
                        assert(!is_digit(s@[i as int]));
                    } else {
                        assert(n == 15 || n == 17);
                        assert(z < i < n);
                    }
                }
                return None;
            }
            i += 1;
        }
        let zone = s[z];
        let has_offset = n == 15 || n == 17;
        if has_offset && zone != 43 && zone != 45 {
            return None;
        }
        if !has_offset && zone != 90 {
            return None;
        }
        assert(well_shaped(s@));
        let yy = read_two_digits(s, 0);
        let year: i32 = if yy < 70 {
            2000 + yy as i32
        } else {
            1900 + yy as i32
        };
        let month = read_two_digits(s, 2);
        let day = read_two_digits(s, 4);
        let hour = read_two_digits(s, 6);
        let minute = read_two_digits(s, 8);
        let second: u8 = if z == 12 {
            read_two_digits(s, 10)
        } else {
            0
        };
        let mag: i16 = if has_offset {
            read_two_digits(s, z + 1) as i16 * 60 + read_two_digits(s, z + 3) as i16
        } else {
            0
        };
        let offset_minutes: i16 = if zone == 45 {
            -mag
        } else {
            mag
        };
        let r = Timestamp::new(year, month, day, hour, minute, second, offset_minutes);
        assert(text_fields(s@) == Timestamp { year, month, day, hour, minute, second, offset_minutes });
        r
    }

    /// Whether the fields are a real time in the window of two-digit years.
    pub fn is_valid(&self) -> (r: bool)
        ensures
            r == self.valid(),
    {
        Timestamp::new(
            self.year,
            self.month,
            self.day,
            self.hour,
            self.minute,
            self.second,
            self.offset_minutes,
        ).is_some()
    }

    /// The seconds field.
    pub fn second(&self) -> (r: u8)
        ensures
            r == self.second,
    {
        self.second
    }
}

/// The text form of a valid timestamp reads back to it.
pub proof fn lemma_utc_text_round_trip(t: Timestamp)
    requires
        t.valid(),
    ensures
        parse_utc(utc_text(t)) == Some(t),
{
    let s = utc_text(t);
    let n = s.len();
    let z = if n == 13 || n == 17 {
        12int
    } else {
        10int
    };
    assert(well_shaped(s));
    assert(text_fields(s) == t);
}

} // verus!
