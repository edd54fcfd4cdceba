//! Parsing the textual sensor reading.
//!
//! The temperature source is a file whose content is one scalar in
//! millidegrees Celsius: optional surrounding whitespace, an optional sign,
//! and a run of decimal digits. Anything else is a reportable error — the
//! loop must hear about a garbled reading rather than carry on with a
//! guessed value.

use vstd::prelude::*;

verus! {

/// Why a sensor reading was rejected.
#[derive(Clone, Copy, Debug, PartialEq, Eq, Structural)]
pub enum SensorError {
    /// After trimming, the text is not an optionally signed, nonempty run
    /// of decimal digits.
    Malformed,
    /// The digit run is longer than `MAX_SCALAR_DIGITS`, so its value is
    /// not accepted.
    OutOfRange,
}

/// The longest digit run the parser accepts; every accepted value then
/// stays strictly below `10^18` in magnitude and fits an `i64`.
pub const MAX_SCALAR_DIGITS: usize = 18;

/// ASCII whitespace as the sensor file may carry it: space, tab, line
/// feed, carriage return.
pub open spec fn is_ascii_space(b: u8) -> bool {
    b == 32 || b == 9 || b == 10 || b == 13
}

/// An ASCII decimal digit.
pub open spec fn is_ascii_digit(b: u8) -> bool {
    48 <= b && b <= 57
}

/// The bytes with leading whitespace removed.
pub open spec fn trim_front(s: Seq<u8>) -> Seq<u8>
    decreases s.len(),
{
    if s.len() > 0 && is_ascii_space(s[0]) {
        trim_front(s.drop_first())
    } else {
        s
    }
}

/// The bytes with trailing whitespace removed.
pub open spec fn trim_back(s: Seq<u8>) -> Seq<u8>
    decreases s.len(),
{
    if s.len() > 0 && is_ascii_space(s.last()) {
        trim_back(s.drop_last())
    } else {
        s
    }
}

/// The bytes with whitespace removed from both ends.
pub open spec fn trimmed(s: Seq<u8>) -> Seq<u8> {
    trim_back(trim_front(s))
}

/// Whether a trimmed scalar starts with an explicit sign.
pub open spec fn has_sign(t: Seq<u8>) -> bool {
    t.len() > 0 && (t[0] == 43 || t[0] == 45)
}

/// The digit run of a trimmed scalar: everything after the sign, if any.
pub open spec fn digits_of(t: Seq<u8>) -> Seq<u8> {
    if has_sign(t) {
        t.drop_first()
    } else {
        t
    }
}

/// Whether every byte of `d` is a decimal digit.
pub open spec fn all_digits(d: Seq<u8>) -> bool {
    forall|i: int| 0 <= i < d.len() ==> is_ascii_digit(#[trigger] d[i])
}

/// A well-formed trimmed scalar: an optional sign followed by at least one
/// digit, and nothing else.
pub open spec fn is_decimal_scalar(t: Seq<u8>) -> bool {
    digits_of(t).len() > 0 && all_digits(digits_of(t))
}

/// The value of a digit run read in base ten.
pub open spec fn digits_value(d: Seq<u8>) -> int
    decreases d.len(),
{
    if d.len() == 0 {
        0
    } else {
        digits_value(d.drop_last()) * 10 + (d.last() - 48)
    }
}

/// The signed value of a well-formed trimmed scalar.
pub open spec fn decimal_value(t: Seq<u8>) -> int {
    if t.len() > 0 && t[0] == 45 {
        -digits_value(digits_of(t))
    } else {
        digits_value(digits_of(t))
    }
}

/// Ten to the `n`th power.
pub open spec fn pow10(n: nat) -> int
    decreases n,
{
    if n == 0 {
        1
    } else {
        10 * pow10((n - 1) as nat)
    }
}

proof fn lemma_pow10_increases(m: nat, n: nat)
    requires
        m <= n,
    ensures
        1 <= pow10(m) <= pow10(n),
    decreases n,
{
    if n > 0 {
        if m == n {
            lemma_pow10_increases((n - 1) as nat, (n - 1) as nat);
        } else {
            lemma_pow10_increases(m, (n - 1) as nat);
        }
    }
}

proof fn lemma_trim_front_is_subrange(s: Seq<u8>, lo: int)
    requires
        0 <= lo <= s.len(),
        forall|i: int| 0 <= i < lo ==> is_ascii_space(#[trigger] s[i]),
        lo == s.len() || !is_ascii_space(s[lo]),
    ensures
        trim_front(s) == s.subrange(lo, s.len() as int),
    decreases lo,
{
    if lo == 0 {
        assert(s.subrange(0, s.len() as int) =~= s);
    } else {
        lemma_trim_front_is_subrange(s.drop_first(), lo - 1);
        assert(s.drop_first().subrange(lo - 1, s.len() - 1) =~= s.subrange(
            lo,
            s.len() as int,
        ));
    }
}

proof fn lemma_trim_back_is_subrange(s: Seq<u8>, hi: int)
    requires
        0 <= hi <= s.len(),
        forall|i: int| hi <= i < s.len() ==> is_ascii_space(#[trigger] s[i]),
        hi == 0 || !is_ascii_space(s[hi - 1]),
    ensures
        trim_back(s) == s.subrange(0, hi),
    decreases s.len() - hi,
{
    if hi == s.len() {
        assert(s.subrange(0, s.len() as int) =~= s);
    } else {
        lemma_trim_back_is_subrange(s.drop_last(), hi);
        assert(s.drop_last().subrange(0, hi) =~= s.subrange(0, hi));
    }
}

/// Parse the sensor file's bytes as a millidegree-Celsius reading.
///
/// Succeeds exactly when the text, once trimmed of surrounding ASCII
/// whitespace, is an optionally signed run of at most `MAX_SCALAR_DIGITS`
/// decimal digits, and then returns that run's signed base-ten value; a
/// well-formed but longer run is out of range, and anything else is
/// malformed.
pub fn parse_millidegrees(data: &[u8]) -> (r: Result<i64, SensorError>)
    ensures
        ({
            let t = trimmed(data@);
            match r {
                Ok(v) => is_decimal_scalar(t) && digits_of(t).len() <= MAX_SCALAR_DIGITS && v
                    == decimal_value(t),
                Err(SensorError::Malformed) => !is_decimal_scalar(t),
                Err(SensorError::OutOfRange) => is_decimal_scalar(t) && digits_of(t).len()
                    > MAX_SCALAR_DIGITS,
            }
        }),
{
    let n = data.len();
    let mut lo: usize = 0;
    while lo < n && (data[lo] == 32 || data[lo] == 9 || data[lo] == 10 || data[lo] == 13)
        invariant
            0 <= lo <= n,
            n == data@.len(),
            forall|i: int| 0 <= i < lo ==> is_ascii_space(#[trigger] data@[i]),
        decreases n - lo,
    {
        lo = lo + 1;
    }
    let mut hi: usize = n;
    while hi > lo && (data[hi - 1] == 32 || data[hi - 1] == 9 || data[hi - 1] == 10 || data[hi - 1]
        == 13)
        invariant
            lo <= hi <= n,
            n == data@.len(),
            forall|i: int| hi <= i < n ==> is_ascii_space(#[trigger] data@[i]),
        decreases hi,
    {
        hi = hi - 1;
    }
    let ghost t = trimmed(data@);
    proof {
        lemma_trim_front_is_subrange(data@, lo as int);
        let tf = data@.subrange(lo as int, n as int);
        lemma_trim_back_is_subrange(tf, (hi - lo) as int);
        assert(tf.subrange(0, (hi - lo) as int) =~= data@.subrange(lo as int, hi as int));
        assert(t == data@.subrange(lo as int, hi as int));
    }
    if lo == hi {
        return Err(SensorError::Malformed);
    }
    let mut pos: usize = lo;
    let mut negative: bool = false;
    if data[pos] == 45 {
        negative = true;
        pos = pos + 1;
    } else if data[pos] == 43 {
        pos = pos + 1;
    }
    let ghost d = digits_of(t);
    proof {
        if has_sign(t) {
            assert(t.drop_first() =~= data@.subrange(pos as int, hi as int));
        }
        assert(d =~= data@.subrange(pos as int, hi as int));
    }
    if pos == hi {
        // A bare sign has no digits.
        return Err(SensorError::Malformed);
    }
    let mut i: usize = pos;
    while i < hi
        invariant
            pos <= i <= hi <= n,
            n == data@.len(),
            t == trimmed(data@),
            d == digits_of(t),
            d =~= data@.subrange(pos as int, hi as int),
            forall|k: int| pos <= k < i ==> is_ascii_digit(#[trigger] data@[k]),
        decreases hi - i,
    {
        if data[i] < 48 || data[i] > 57 {
            assert(!is_ascii_digit(d[i - pos]));
            return Err(SensorError::Malformed);
        }
        i = i + 1;
    }
    assert(all_digits(d)) by {
        assert(forall|k: int| 0 <= k < d.len() ==> #[trigger] d[k] == data@[k + pos]);
    }
    if hi - pos > MAX_SCALAR_DIGITS {
        return Err(SensorError::OutOfRange);
    }
    let mut acc: i64 = 0;
    let mut j: usize = pos;
    while j < hi
        invariant
            pos <= j <= hi <= n,
            n == data@.len(),
            hi - pos <= MAX_SCALAR_DIGITS,
            d =~= data@.subrange(pos as int, hi as int),
            all_digits(d),
            acc == digits_value(data@.subrange(pos as int, j as int)),
            0 <= acc < pow10((j - pos) as nat),
        decreases hi - j,
    {
        proof {
            assert(d[j - pos] == data@[j as int]);
            assert(is_ascii_digit(data@[j as int]));
            lemma_pow10_increases((j - pos) as nat, 17);
            assert(pow10(17) == 100_000_000_000_000_000) by {
                reveal_with_fuel(pow10, 18);
            }
        }
        let digit = data[j] - 48;
        acc = acc * 10 + (digit as i64);
        proof {
            let seen2 = data@.subrange(pos as int, j + 1);
            assert(seen2.drop_last() =~= data@.subrange(pos as int, j as int));
            assert(seen2.last() == data@[j as int]);
        }
        j = j + 1;
    }
    proof {
        assert(data@.subrange(pos as int, hi as int) =~= d);
        assert(acc == digits_value(d));
    }
    if negative {
        Ok(-acc)
    } else {
        Ok(acc)
    }
}

} // verus!
