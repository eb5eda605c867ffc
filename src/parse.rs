use vstd::prelude::*;
use vstd::utf8::is_ascii_chars;

use crate::digits::{
    all_digits, all_digits_in, digits_value, find_char, is_digit, lemma_digits_value_bound, pow10,
    read_number,
};
use crate::time::Time;

verus! {

/// Why a text could not be read as a duration.
#[derive(Debug, Clone, Copy, PartialEq, Eq, Structural)]
pub enum TimeError {
    /// The text does not have the shape that the mode asks for.
    PatternMismatch,
    /// A field has the right shape but does not fit its storage width.
    FieldOverflow,
}

/// `s` is `h:m:x`, where `h` is one to five ASCII digits and `m` and `x`
/// are one or two ASCII digits each.
pub open spec fn hms_parts(s: Seq<char>, h: Seq<char>, m: Seq<char>, x: Seq<char>) -> bool {
    &&& 1 <= h.len() <= 5
    &&& 1 <= m.len() <= 2
    &&& 1 <= x.len() <= 2
    &&& all_digits(h)
    &&& all_digits(m)
    &&& all_digits(x)
    &&& s == h + seq![':'] + m + seq![':'] + x
}

/// `s` has the shape `hour:minutes:seconds`, anchored at both ends.
pub open spec fn is_hms(s: Seq<char>) -> bool {
    exists|h: Seq<char>, m: Seq<char>, x: Seq<char>| hms_parts(s, h, m, x)
}

/// `s` is a run of ASCII digits, optionally followed by `.` and a second
/// run of ASCII digits; neither run is empty.
pub open spec fn is_scalar_text(s: Seq<char>) -> bool {
    ||| (1 <= s.len() && all_digits(s))
    ||| exists|a: Seq<char>, b: Seq<char>|
        1 <= a.len() && 1 <= b.len() && all_digits(a) && all_digits(b) && s == a + seq!['.'] + b
}

/// The characters of `s`, when all of them are ASCII.
fn ascii_chars(s: &str) -> (r: Option<Vec<char>>)
    ensures
        r is Some <==> is_ascii_chars(s@),
        r matches Some(v) ==> v@ == s@,
{
    if !s.is_ascii() {
        return None;
    }
    let n = s.unicode_len();
    let mut v: Vec<char> = Vec::new();
    let mut i: usize = 0;
    while i < n
        invariant
            n == s@.len(),
            s.is_ascii(),
            i <= n,
            v@ == s@.subrange(0, i as int),
        decreases n - i,
    {
        let b = s.get_ascii(i);
        let c = b as char;
        proof {
            let d = s@[i as int];
            assert('\0' <= d <= '\u{7f}');
            assert(d as u8 == b);
            assert(c == d);
        }
        v.push(c);
        i = i + 1;
        assert(v@ =~= s@.subrange(0, i as int));
    }
    assert(s@.subrange(0, n as int) =~= s@);
    Some(v)
}

/// The fields of a text of the `hour:minutes:seconds` shape sit between its
/// first two colons, and nowhere else.
proof fn lemma_hms_split(s: Seq<char>, i1: int, i2: int)
    requires
        0 <= i1 <= s.len(),
        i1 < s.len() ==> s[i1] == ':',
        forall|k: int| 0 <= k < i1 ==> s[k] != ':',
        i1 < s.len() ==> i1 < i2 <= s.len(),
        i1 < s.len() && i2 < s.len() ==> s[i2] == ':',
        i1 < s.len() ==> forall|k: int| i1 < k < i2 ==> s[k] != ':',
    ensures
        is_hms(s) <==> {
            &&& i1 < s.len() && i2 < s.len()
            &&& 1 <= i1 <= 5 && 1 <= i2 - i1 - 1 <= 2 && 1 <= s.len() - i2 - 1 <= 2
            &&& all_digits(s.subrange(0, i1))
            &&& all_digits(s.subrange(i1 + 1, i2))
            &&& all_digits(s.subrange(i2 + 1, s.len() as int))
        },
        forall|h: Seq<char>, m: Seq<char>, x: Seq<char>|
            #[trigger] hms_parts(s, h, m, x) ==> {
                &&& h == s.subrange(0, i1)
                &&& m == s.subrange(i1 + 1, i2)
                &&& x == s.subrange(i2 + 1, s.len() as int)
            },
{
    assert forall|h: Seq<char>, m: Seq<char>, x: Seq<char>|
        #[trigger] hms_parts(s, h, m, x) implies {
            &&& i1 < s.len() && i2 < s.len()
            &&& h == s.subrange(0, i1)
            &&& m == s.subrange(i1 + 1, i2)
            &&& x == s.subrange(i2 + 1, s.len() as int)
        } by {
        let a = h.len() as int;
        let b = a + 1 + m.len();
        assert(s[a] == ':');
        assert(s[b] == ':');
        assert forall|k: int| 0 <= k < a implies s[k] == h[k] && is_digit(s[k]) by {
            assert(is_digit(h[k]));
        }
        assert forall|k: int| a < k < b implies s[k] == m[k - a - 1] && is_digit(s[k]) by {
            assert(is_digit(m[k - a - 1]));
        }
        if i1 < a {
            assert(is_digit(s[i1]));
        }
        assert(i1 == a);
        if i2 < b {
            assert(is_digit(s[i2]));
        }
        assert(i2 == b);
        assert(h =~= s.subrange(0, i1));
        assert(m =~= s.subrange(i1 + 1, i2));
        assert(x =~= s.subrange(i2 + 1, s.len() as int));
    }
    if i1 < s.len() && i2 < s.len() && 1 <= i1 <= 5 && 1 <= i2 - i1 - 1 <= 2 && 1 <= s.len()
        - i2 - 1 <= 2 && all_digits(s.subrange(0, i1)) && all_digits(s.subrange(i1 + 1, i2))
        && all_digits(s.subrange(i2 + 1, s.len() as int)) {
        let h = s.subrange(0, i1);
        let m = s.subrange(i1 + 1, i2);
        let x = s.subrange(i2 + 1, s.len() as int);
        assert(s =~= h + seq![':'] + m + seq![':'] + x);
        assert(hms_parts(s, h, m, x));
    }
}

/// A text splits into the three fields of `hour:minutes:seconds` in at most
/// one way.
pub proof fn lemma_hms_parts_unique(
    s: Seq<char>,
    h1: Seq<char>,
    m1: Seq<char>,
    x1: Seq<char>,
    h2: Seq<char>,
    m2: Seq<char>,
    x2: Seq<char>,
)
    requires
        hms_parts(s, h1, m1, x1),
        hms_parts(s, h2, m2, x2),
    ensures
        h1 == h2,
        m1 == m2,
        x1 == x2,
{
    let i1 = h1.len() as int;
    let i2 = i1 + 1 + m1.len();
    assert forall|k: int| 0 <= k < i1 implies s[k] != ':' by {
        assert(s[k] == h1[k] && is_digit(h1[k]));
    }
    assert forall|k: int| i1 < k < i2 implies s[k] != ':' by {
        assert(s[k] == m1[k - i1 - 1] && is_digit(m1[k - i1 - 1]));
    }
    assert(s[i1] == ':');
    assert(s[i2] == ':');
    lemma_hms_split(s, i1, i2);
}

/// A text of the `hour:minutes:seconds` shape is all ASCII.
proof fn lemma_hms_ascii(s: Seq<char>)
    requires
        is_hms(s),
    ensures
        is_ascii_chars(s),
{
    let (h, m, x) = choose|h: Seq<char>, m: Seq<char>, x: Seq<char>| hms_parts(s, h, m, x);
    let a = h.len() as int;
    let b = a + 1 + m.len();
    assert forall|k: int| 0 <= k < s.len() implies '\0' <= #[trigger] s[k] <= '\u{7f}' by {
        if k < a {
            assert(s[k] == h[k] && is_digit(h[k]));
        } else if a < k < b {
            assert(s[k] == m[k - a - 1] && is_digit(m[k - a - 1]));
        } else if b < k {
            assert(s[k] == x[k - b - 1] && is_digit(x[k - b - 1]));
        }
    }
}

/// Reads a duration written `hour:minutes:seconds`: one to five digits of
/// hours, then one or two digits each of minutes and seconds. The minutes and
/// seconds are not held to `0..60`; an hour above `u16::MAX` overflows.
pub fn parse_time(s: &str) -> (r: Result<Time, TimeError>)
    ensures
        match r {
            Ok(t) => exists|h: Seq<char>, m: Seq<char>, x: Seq<char>|
                {
                    &&& #[trigger] hms_parts(s@, h, m, x)
                    &&& t.hour == digits_value(h)
                    &&& t.minutes == digits_value(m)
                    &&& t.seconds == digits_value(x)
                },
            Err(TimeError::PatternMismatch) => !is_hms(s@),
            Err(TimeError::FieldOverflow) => exists|h: Seq<char>, m: Seq<char>, x: Seq<char>|
                #[trigger] hms_parts(s@, h, m, x) && digits_value(h) > 65535,
        },
{
    let v = match ascii_chars(s) {
        Some(v) => v,
        None => {
            proof {
                if is_hms(s@) {
                    lemma_hms_ascii(s@);
                }
            }
            return Err(TimeError::PatternMismatch);
        },
    };
    let n = v.len();
    let i1 = find_char(&v, ':', 0);
    let i2 = if i1 < n {
        find_char(&v, ':', i1 + 1)
    } else {
        n
    };
    proof {
        lemma_hms_split(s@, i1 as int, i2 as int);
    }
    if !(i1 < n && i2 < n && 1 <= i1 && i1 <= 5 && 1 <= i2 - i1 - 1 && i2 - i1 - 1 <= 2 && 1
        <= n - i2 - 1 && n - i2 - 1 <= 2) {
        return Err(TimeError::PatternMismatch);
    }
    let hour = read_number(&v, 0, i1);
    let minutes = read_number(&v, i1 + 1, i2);
    let seconds = read_number(&v, i2 + 1, n);
    match (hour, minutes, seconds) {
        (Some(h), Some(m), Some(x)) => {
            let ghost hs = s@.subrange(0, i1 as int);
            let ghost ms = s@.subrange(i1 + 1, i2 as int);
            let ghost xs = s@.subrange(i2 + 1, n as int);
            assert(hms_parts(s@, hs, ms, xs));
            if h > 65535 {
                Err(TimeError::FieldOverflow)
            } else {
                proof {
                    assert(m < 100 && x < 100) by {
                        lemma_digits_value_bound(ms);
                        lemma_digits_value_bound(xs);
                        reveal_with_fuel(pow10, 3);
                    }
                }
                Ok(Time { hour: h as u16, minutes: m as u8, seconds: x as u8 })
            }
        },
        _ => Err(TimeError::PatternMismatch),
    }
}

/// The text before the first `.` of `s`, and the text after it, decide
/// whether `s` is a plain decimal number.
proof fn lemma_scalar_split(s: Seq<char>, p: int)
    requires
        0 <= p <= s.len(),
        p < s.len() ==> s[p] == '.',
        forall|k: int| 0 <= k < p ==> s[k] != '.',
    ensures
        is_scalar_text(s) <==> {
            ||| (p == s.len() && 1 <= s.len() && all_digits(s))
            ||| (1 <= p && p + 1 < s.len() && all_digits(s.subrange(0, p)) && all_digits(
                s.subrange(p + 1, s.len() as int),
            ))
        },
        is_scalar_text(s) ==> is_ascii_chars(s),
{
    if 1 <= s.len() && all_digits(s) {
        if p < s.len() {
            assert(is_digit(s[p]));
        }
        assert forall|k: int| 0 <= k < s.len() implies '\0' <= #[trigger] s[k] <= '\u{7f}' by {
            assert(is_digit(s[k]));
        }
    }
    assert forall|a: Seq<char>, b: Seq<char>|
        1 <= a.len() && 1 <= b.len() && all_digits(a) && all_digits(b) && s == a + seq!['.'] + b
        implies {
            &&& p == a.len()
            &&& a == s.subrange(0, p)
            &&& b == s.subrange(p + 1, s.len() as int)
            &&& is_ascii_chars(s)
        } by {
        let n = a.len() as int;
        assert(s[n] == '.');
        if p < n {
            assert(s[p] == a[p] && is_digit(a[p]));
        }
        assert(p == n);
        assert(a =~= s.subrange(0, p));
        assert(b =~= s.subrange(p + 1, s.len() as int));
        assert forall|k: int| 0 <= k < s.len() implies '\0' <= #[trigger] s[k] <= '\u{7f}' by {
            if k < n {
                assert(s[k] == a[k] && is_digit(a[k]));
            } else if n < k {
                assert(s[k] == b[k - n - 1] && is_digit(b[k - n - 1]));
            }
        }
    }
    if 1 <= p && p + 1 < s.len() && all_digits(s.subrange(0, p)) && all_digits(
        s.subrange(p + 1, s.len() as int),
    ) {
        let a = s.subrange(0, p);
        let b = s.subrange(p + 1, s.len() as int);
        assert(s =~= a + seq!['.'] + b);
    }
}

/// Whether `s` is a plain decimal number: digits, then optionally a `.` and
/// more digits, with nothing around them.
pub fn matches_scalar(s: &str) -> (r: bool)
    ensures
        r == is_scalar_text(s@),
{
    let v = match ascii_chars(s) {
        Some(v) => v,
        None => {
            proof {
                if is_scalar_text(s@) {
                    lemma_scalar_split(s@, s@.len() as int);
                }
            }
            return false;
        },
    };
    let n = v.len();
    let p = find_char(&v, '.', 0);
    proof {
        lemma_scalar_split(s@, p as int);
        assert(s@.subrange(0, n as int) =~= s@);
    }
    if p == n {
        1 <= n && all_digits_in(&v, 0, n)
    } else {
        1 <= p && p + 1 < n && all_digits_in(&v, 0, p) && all_digits_in(&v, p + 1, n)
    }
}

} // verus!
