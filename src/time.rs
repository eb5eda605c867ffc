use vstd::arithmetic::div_mod::lemma_fundamental_div_mod_converse;
use vstd::prelude::*;

use crate::digits::{decimal, push_decimal};

verus! {

/// A duration held as hours, minutes and seconds.
///
/// Minutes and seconds are meant to lie in `0..60`, but nothing enforces it:
/// a parsed `1:75:00` is kept as it is.
#[derive(Debug, Clone, Copy, PartialEq, Eq, Structural)]
pub struct Time {
    pub hour: u16,
    pub minutes: u8,
    pub seconds: u8,
}

impl Time {
    /// Minutes and seconds both lie in `0..60`.
    pub open spec fn is_normalized(self) -> bool {
        self.minutes < 60 && self.seconds < 60
    }

    /// The duration as a whole number of seconds.
    pub open spec fn seconds_spec(self) -> int {
        self.hour * 3600 + self.minutes * 60 + self.seconds
    }

    /// The zero duration.
    pub fn new() -> (r: Time)
        ensures
            r.hour == 0,
            r.minutes == 0,
            r.seconds == 0,
    {
        Time { hour: 0, minutes: 0, seconds: 0 }
    }

    pub fn set_hour(&mut self, hour: u16)
        ensures
            *final(self) == (Time { hour, ..*old(self) }),
    {
        self.hour = hour;
    }

    pub fn set_minutes(&mut self, minutes: u8)
        ensures
            *final(self) == (Time { minutes, ..*old(self) }),
    {
        self.minutes = minutes;
    }

    pub fn set_seconds(&mut self, seconds: u8)
        ensures
            *final(self) == (Time { seconds, ..*old(self) }),
    {
        self.seconds = seconds;
    }

    /// The duration that `n` whole seconds make up. The hour is capped at
    /// `u16::MAX`, as a saturating cast would cap it.
    pub open spec fn from_seconds_spec(n: int) -> Time {
        Time {
            hour: (if n / 3600 > 65535 { 65535 } else { n / 3600 }) as u16,
            minutes: ((n / 60) % 60) as u8,
            seconds: (n % 60) as u8,
        }
    }

    /// The duration in whole seconds: `hour * 3600 + minutes * 60 + seconds`.
    pub fn total_seconds(&self) -> (r: u32)
        ensures
            r == self.seconds_spec(),
    {
        self.hour as u32 * 3600 + self.minutes as u32 * 60 + self.seconds as u32
    }

    /// Splits `n` seconds into hours, minutes and seconds, each field taken
    /// from `n` by its own truncating division.
    pub fn from_total_seconds(n: u32) -> (r: Time)
        ensures
            r == Time::from_seconds_spec(n as int),
            n / 3600 <= 65535 ==> r.hour == n / 3600,
            r.minutes == (n / 60) % 60,
            r.seconds == n % 60,
    {
        let h: u32 = n / 3600;
        let hour: u16 = if h > 65535 { 65535 } else { h as u16 };
        Time { hour, minutes: ((n / 60) % 60) as u8, seconds: (n % 60) as u8 }
    }
}

/// Counting a normalized duration in seconds and splitting the count again
/// gives back the same duration.
pub proof fn lemma_seconds_round_trip(t: Time)
    requires
        t.is_normalized(),
    ensures
        Time::from_seconds_spec(t.seconds_spec()) == t,
{
    let n = t.seconds_spec();
    let q = t.hour * 60 + t.minutes;
    assert(n == q * 60 + t.seconds) by (nonlinear_arith)
        requires n == t.hour * 3600 + t.minutes * 60 + t.seconds, q == t.hour * 60 + t.minutes;
    lemma_fundamental_div_mod_converse(n, 60, q, t.seconds as int);
    lemma_fundamental_div_mod_converse(q, 60, t.hour as int, t.minutes as int);
    assert(n == t.hour * 3600 + (t.minutes * 60 + t.seconds)) by (nonlinear_arith)
        requires n == t.hour * 3600 + t.minutes * 60 + t.seconds;
    lemma_fundamental_div_mod_converse(n, 3600, t.hour as int, t.minutes * 60 + t.seconds);
}

impl Time {
    /// The text `hour:minutes:seconds`, each field in decimal without
    /// leading zeros.
    pub open spec fn text_spec(self) -> Seq<char> {
        decimal(self.hour as nat) + seq![':'] + decimal(self.minutes as nat) + seq![':']
            + decimal(self.seconds as nat)
    }

    /// Renders the duration as `hour:minutes:seconds`, such as `1:1:30`.
    pub fn to_text(&self) -> (r: String)
        ensures
            r@ == self.text_spec(),
    {
        let mut s = String::new();
        push_decimal(&mut s, self.hour as u32);
        s.append(":");
        push_decimal(&mut s, self.minutes as u32);
        s.append(":");
        push_decimal(&mut s, self.seconds as u32);
        proof {
            reveal_strlit(":");
        }
        s
    }
}

} // verus!
