//! A span of time as plain seconds and nanoseconds, with the helpers the
//! rest of the crate wants from one.

use vstd::prelude::*;

verus! {

/// A span of time: whole seconds and the nanosecond remainder.
#[derive(Debug, Clone, Copy, PartialEq, Eq, Structural)]
pub struct Dur {
    /// Whole seconds.
    pub secs: u64,
    /// Nanoseconds below one second.
    pub nanos: u32,
}

impl Dur {
    /// The nanosecond part stays below one second.
    pub open spec fn wf(self) -> bool {
        self.nanos < 1_000_000_000
    }

    /// The whole span in nanoseconds.
    pub open spec fn total_nanos(self) -> int {
        self.secs * 1_000_000_000 + self.nanos
    }

    /// The hours this span covers.
    pub fn hours(&self) -> (r: u64)
        ensures
            r == self.secs as int / 3600,
    {
        self.secs / 3600
    }

    /// The minutes past the hour this span covers.
    pub fn minutes(&self) -> (r: u64)
        ensures
            r == (self.secs as int / 60) % 60,
    {
        (self.secs / 60) % 60
    }

    /// The seconds past the minute this span covers.
    pub fn seconds(&self) -> (r: u64)
        ensures
            r == self.secs as int % 60,
    {
        self.secs % 60
    }

    /// Whether this span is shorter than `other`.
    pub fn is_shorter_than(&self, other: &Dur) -> (r: bool)
        requires
            self.wf(),
            other.wf(),
        ensures
            r == (self.total_nanos() < other.total_nanos()),
    {
        proof {
            assert((self.secs < other.secs || (self.secs == other.secs && self.nanos
                < other.nanos)) == (self.secs * 1_000_000_000 + self.nanos < other.secs
                * 1_000_000_000 + other.nanos)) by (nonlinear_arith)
                requires
                    self.nanos < 1_000_000_000,
                    other.nanos < 1_000_000_000,
            ;
        }
        self.secs < other.secs || (self.secs == other.secs && self.nanos < other.nanos)
    }

    /// The absolute difference between `self` and `other`.
    pub fn abs_diff(self, other: Dur) -> (r: Dur)
        requires
            self.wf(),
            other.wf(),
        ensures
            r.wf(),
            r.total_nanos() == if self.total_nanos() >= other.total_nanos() {
                self.total_nanos() - other.total_nanos()
            } else {
                other.total_nanos() - self.total_nanos()
            },
    {
        let (hi, lo) = if other.is_shorter_than(&self) {
            (self, other)
        } else {
            (other, self)
        };
        if hi.nanos >= lo.nanos {
            Dur { secs: hi.secs - lo.secs, nanos: hi.nanos - lo.nanos }
        } else {
            Dur { secs: hi.secs - lo.secs - 1, nanos: 1_000_000_000 + hi.nanos - lo.nanos }
        }
    }

    /// Whether the distance between `self` and `other` is less than
    /// `delta`.
    pub fn is_near_to(self, other: Dur, delta: Dur) -> (r: bool)
        requires
            self.wf(),
            other.wf(),
            delta.wf(),
        ensures
            r == ((if self.total_nanos() >= other.total_nanos() {
                self.total_nanos() - other.total_nanos()
            } else {
                other.total_nanos() - self.total_nanos()
            }) < delta.total_nanos()),
    {
        self.abs_diff(other).is_shorter_than(&delta)
    }
}

/// Builds a [`Dur`] from hours, minutes, seconds and milliseconds.
pub fn duration_from_h_m_s_m(hours: u64, minutes: u64, seconds: u64, millis: u32) -> (r: Dur)
    requires
        hours * 3600 + minutes * 60 + seconds + (millis as int / 1000) <= u64::MAX,
    ensures
        r.wf(),
        r.total_nanos() == (hours * 3600 + minutes * 60 + seconds) * 1_000_000_000 + millis
            * 1_000_000,
{
    let carry_secs = (millis / 1000) as u64;
    let rem_millis = millis % 1000;
    let secs = hours * 3600 + minutes * 60 + seconds + carry_secs;
    let r = Dur { secs, nanos: rem_millis * 1_000_000 };
    proof {
        assert(r.total_nanos() == (hours * 3600 + minutes * 60 + seconds) * 1_000_000_000
            + millis * 1_000_000) by (nonlinear_arith)
            requires
                r.secs == hours * 3600 + minutes * 60 + seconds + (millis as int / 1000),
                r.nanos == (millis as int % 1000) * 1_000_000,
                r.total_nanos() == r.secs * 1_000_000_000 + r.nanos,
        ;
    }
    r
}

/// A wrapper that renders a span of time for display.
#[derive(Debug, Clone, Copy)]
pub struct DurationDisplay(pub Dur);

/// The decimal digit character for a value below ten.
pub open spec fn digit_char(v: int) -> char {
    if v == 0 {
        '0'
    } else if v == 1 {
        '1'
    } else if v == 2 {
        '2'
    } else if v == 3 {
        '3'
    } else if v == 4 {
        '4'
    } else if v == 5 {
        '5'
    } else if v == 6 {
        '6'
    } else if v == 7 {
        '7'
    } else if v == 8 {
        '8'
    } else {
        '9'
    }
}

/// The decimal digits of a non-negative number, highest first.
pub open spec fn dec_digits(n: int) -> Seq<char>
    decreases n,
{
    if n < 10 {
        seq![digit_char(n)]
    } else {
        dec_digits(n / 10) + seq![digit_char(n % 10)]
    }
}

/// The decimal digits, left-padded with zeros to two places.
pub open spec fn dec_pad2(n: int) -> Seq<char> {
    if n < 10 {
        seq!['0'] + dec_digits(n)
    } else {
        dec_digits(n)
    }
}

/// The decimal digits, left-padded with zeros to three places.
pub open spec fn dec_pad3(n: int) -> Seq<char> {
    if n < 10 {
        seq!['0', '0'] + dec_digits(n)
    } else if n < 100 {
        seq!['0'] + dec_digits(n)
    } else {
        dec_digits(n)
    }
}

/// The decimal digit character for a value below ten.
fn digit_char_of(v: u64) -> (c: char)
    requires
        v < 10,
    ensures
        c == digit_char(v as int),
{
    match v {
        0 => '0',
        1 => '1',
        2 => '2',
        3 => '3',
        4 => '4',
        5 => '5',
        6 => '6',
        7 => '7',
        8 => '8',
        _ => '9',
    }
}

/// Writes `n` in decimal.
pub fn u64_to_dec(n: u64) -> (r: String)
    ensures
        r@ == dec_digits(n as int),
    decreases n,
{
    if n < 10 {
        let mut s = String::new();
        s.push(digit_char_of(n));
        s
    } else {
        let mut s = u64_to_dec(n / 10);
        s.push(digit_char_of(n % 10));
        s
    }
}

impl DurationDisplay {
    /// Renders the span as `minutes:seconds.millis`, the seconds padded
    /// to two places and the milliseconds to three.
    pub fn to_text(&self) -> (r: String)
        ensures
            r@ == dec_digits((self.0.secs as int / 60) % 60) + ":"@ + dec_pad2(
                self.0.secs as int % 60,
            ) + "."@ + dec_pad3(self.0.nanos as int / 1_000_000),
    {
        let minutes = self.0.minutes();
        let seconds = self.0.seconds();
        let millis = (self.0.nanos / 1_000_000) as u64;
        let mut out = u64_to_dec(minutes);
        out.append(":");
        if seconds < 10 {
            out.push('0');
        }
        let sec_digits = u64_to_dec(seconds);
        out.append(sec_digits.as_str());
        out.append(".");
        if millis < 10 {
            out.push('0');
            out.push('0');
        } else if millis < 100 {
            out.push('0');
        }
        let ms_digits = u64_to_dec(millis);
        out.append(ms_digits.as_str());
        proof {
            assert(out@ =~= dec_digits((self.0.secs as int / 60) % 60) + ":"@ + dec_pad2(
                self.0.secs as int % 60,
            ) + "."@ + dec_pad3(self.0.nanos as int / 1_000_000));
        }
        out
    }
}

impl Dur {
    /// A displayable version of this span.
    pub fn into_display(self) -> (r: DurationDisplay)
        ensures
            r.0 == self,
    {
        DurationDisplay(self)
    }
}

} // verus!
