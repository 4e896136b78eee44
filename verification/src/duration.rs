//! Durations and their text forms.

use vstd::prelude::*;
use crate::command::ProcessRunner;
use crate::error::ConduitError;
use crate::text::{
    all_digits, chars_of, copy_range, decimal, digit_value, digits_value, is_digit, parse_unsigned,
    parse_unsigned_chars, push_decimal, push_str, string_of, trim, trim_chars, unsigned_body,
};

verus! {

/// A span of time: whole seconds plus a sub-second part in nanoseconds.
#[derive(Debug, Clone, Copy, PartialEq, Eq, Structural)]
pub struct Duration {
    secs: u64,
    nanos: u32,
}

impl Duration {
    #[verifier::type_invariant]
    spec fn inv(self) -> bool {
        self.nanos < 1_000_000_000
    }

    /// The whole seconds.
    pub closed spec fn secs_of(self) -> nat {
        self.secs as nat
    }

    /// The nanoseconds past the whole seconds (below one second).
    pub closed spec fn subsec_nanos_of(self) -> nat {
        self.nanos as nat
    }

    /// The total length in nanoseconds.
    pub open spec fn total_nanos(self) -> nat {
        self.secs_of() * 1_000_000_000 + self.subsec_nanos_of()
    }

    /// A duration of whole seconds.
    pub fn from_secs(secs: u64) -> (d: Self)
        ensures
            d.secs_of() == secs,
            d.subsec_nanos_of() == 0,
    {
        Duration { secs, nanos: 0 }
    }

    /// A duration of whole milliseconds.
    pub fn from_millis(millis: u64) -> (d: Self)
        ensures
            d.total_nanos() == millis * 1_000_000,
    {
        let secs = millis / 1000;
        let nanos = ((millis % 1000) * 1_000_000) as u32;
        Duration { secs, nanos }
    }

    /// A duration of a whole number of seconds and extra nanoseconds, carried
    /// into seconds when they reach one second.
    pub fn new(secs: u64, nanos: u32) -> (d: Self)
        requires
            secs + nanos / 1_000_000_000 <= u64::MAX,
        ensures
            d.total_nanos() == secs * 1_000_000_000 + nanos,
    {
        let extra = (nanos / 1_000_000_000) as u64;
        Duration { secs: secs + extra, nanos: nanos % 1_000_000_000 }
    }

    /// The whole seconds.
    pub fn as_secs(&self) -> (s: u64)
        ensures
            s == self.secs_of(),
    {
        self.secs
    }

    /// The nanoseconds past the whole seconds.
    pub fn subsec_nanos(&self) -> (n: u32)
        ensures
            n == self.subsec_nanos_of(),
            n < 1_000_000_000,
    {
        proof {
            use_type_invariant(self);
        }
        self.nanos
    }

    /// The whole milliseconds past the whole seconds.
    pub fn subsec_millis(&self) -> (n: u32)
        ensures
            n == self.subsec_nanos_of() / 1_000_000,
            n < 1000,
    {
        proof {
            use_type_invariant(self);
        }
        self.nanos / 1_000_000
    }

    /// The total whole milliseconds.
    pub fn as_millis(&self) -> (n: u128)
        ensures
            n == self.total_nanos() / 1_000_000,
    {
        proof {
            use_type_invariant(self);
        }
        self.secs as u128 * 1000 + (self.nanos / 1_000_000) as u128
    }
}

/// The text `format_duration` gives: milliseconds below one second, else
/// the largest of days, hours, minutes with the two next units, or seconds.
pub open spec fn duration_text(secs: nat, subsec_millis: nat) -> Seq<char> {
    let days = secs / 86400;
    let hours = (secs % 86400) / 3600;
    let minutes = (secs % 3600) / 60;
    let seconds = secs % 60;
    if secs == 0 {
        decimal(subsec_millis) + "ms"@
    } else if days > 0 {
        decimal(days) + "d "@ + decimal(hours) + "h "@ + decimal(minutes) + "m"@
    } else if hours > 0 {
        decimal(hours) + "h "@ + decimal(minutes) + "m "@ + decimal(seconds) + "s"@
    } else if minutes > 0 {
        decimal(minutes) + "m "@ + decimal(seconds) + "s"@
    } else {
        decimal(seconds) + "s"@
    }
}

/// Format a duration as a human-readable string.
pub fn format_duration(duration: Duration) -> (s: String)
    ensures
        s@ == duration_text(duration.secs_of(), duration.subsec_nanos_of() / 1_000_000),
{
    let total_secs = duration.as_secs();
    let mut out: Vec<char> = Vec::new();
    if total_secs == 0 {
        push_decimal(&mut out, duration.subsec_millis() as u64);
        push_str(&mut out, "ms");
        return string_of(out.as_slice());
    }
    let days = total_secs / 86400;
    let remainder = total_secs % 86400;
    let hours = remainder / 3600;
    let remainder = remainder % 3600;
    let minutes = remainder / 60;
    let seconds = remainder % 60;
    proof {
        let s = total_secs as nat;
        assert((s % 86400) % 3600 == s % 3600) by (nonlinear_arith);
        assert(((s % 86400) % 3600) % 60 == s % 60) by (nonlinear_arith);
    }
    if days > 0 {
        push_decimal(&mut out, days);
        push_str(&mut out, "d ");
        push_decimal(&mut out, hours);
        push_str(&mut out, "h ");
        push_decimal(&mut out, minutes);
        push_str(&mut out, "m");
    } else if hours > 0 {
        push_decimal(&mut out, hours);
        push_str(&mut out, "h ");
        push_decimal(&mut out, minutes);
        push_str(&mut out, "m ");
        push_decimal(&mut out, seconds);
        push_str(&mut out, "s");
    } else if minutes > 0 {
        push_decimal(&mut out, minutes);
        push_str(&mut out, "m ");
        push_decimal(&mut out, seconds);
        push_str(&mut out, "s");
    } else {
        push_decimal(&mut out, seconds);
        push_str(&mut out, "s");
    }
    string_of(out.as_slice())
}


/// Ten to the power `k`.
pub open spec fn pow10(k: nat) -> nat
    decreases k,
{
    if k == 0 {
        1
    } else {
        10 * pow10((k - 1) as nat)
    }
}

/// How many decimal digits open the text.
pub open spec fn leading_digits(s: Seq<char>) -> nat
    decreases s.len(),
{
    if s.len() > 0 && is_digit(s[0]) {
        1 + leading_digits(s.drop_first())
    } else {
        0
    }
}

/// Every character is a decimal digit (the empty text included).
pub open spec fn digits_only(s: Seq<char>) -> bool {
    forall|i: int| 0 <= i < s.len() ==> is_digit(#[trigger] s[i])
}

/// What the text of a number reads as, by the grammar of `f64::from_str`.
pub enum FloatText {
    /// A finite number: whether a `-` leads it, all its digits read as one
    /// integer, and the power of ten that scales that integer to the value.
    Finite(bool, nat, int),
    /// An infinity, and whether it is negative.
    Infinite(bool),
    /// Not a number.
    NotANumber,
}

/// `c` is the letter `w` or its ASCII capital.
pub open spec fn letter_is(c: char, w: char) -> bool {
    c == w || c as u32 + 32 == w as u32
}

/// The text is the lower-case word `w`, in any mix of ASCII cases.
pub open spec fn word_ignoring_case(b: Seq<char>, w: Seq<char>) -> bool {
    b.len() == w.len() && forall|i: int| 0 <= i < b.len() ==> letter_is(#[trigger] b[i], w[i])
}

/// The text after an optional leading sign.
pub open spec fn unsigned_float_body(s: Seq<char>) -> Seq<char> {
    if s.len() > 0 && (s[0] == '-' || s[0] == '+') {
        s.drop_first()
    } else {
        s
    }
}

/// The digits before the point, the digits after it, and what follows them.
pub open spec fn mantissa_parts(b: Seq<char>) -> (Seq<char>, Seq<char>, Seq<char>) {
    let p = leading_digits(b);
    let whole = b.take(p as int);
    if p < b.len() && b[p as int] == '.' {
        let a = b.skip(p as int + 1);
        let q = leading_digits(a);
        (whole, a.take(q as int), a.skip(q as int))
    } else {
        (whole, Seq::<char>::empty(), b.skip(p as int))
    }
}

/// The exponent that follows a mantissa: none (zero), or `e` or `E`, an
/// optional sign and one or more digits.
pub open spec fn exponent_of(rest: Seq<char>) -> Option<int> {
    if rest.len() == 0 {
        Some(0)
    } else if rest[0] == 'e' || rest[0] == 'E' {
        let x = rest.drop_first();
        if x.len() > 0 && x[0] == '-' {
            if all_digits(x.drop_first()) {
                Some(-digits_value(x.drop_first()))
            } else {
                None
            }
        } else if all_digits(unsigned_body(x)) {
            Some(digits_value(unsigned_body(x)) as int)
        } else {
            None
        }
    } else {
        None
    }
}

/// What `f64::from_str` reads in a text, before rounding to a float: an
/// optional sign, then `inf`, `infinity` or `nan` in any case, or digits
/// with an optional point (at least one digit in all) and an optional
/// exponent.
pub open spec fn float_text(s: Seq<char>) -> Option<FloatText> {
    let neg = s.len() > 0 && s[0] == '-';
    let b = unsigned_float_body(s);
    if word_ignoring_case(b, "inf"@) || word_ignoring_case(b, "infinity"@) {
        Some(FloatText::Infinite(neg))
    } else if word_ignoring_case(b, "nan"@) {
        Some(FloatText::NotANumber)
    } else {
        let (whole, frac, rest) = mantissa_parts(b);
        match exponent_of(rest) {
            Some(x) => if whole.len() + frac.len() > 0 {
                Some(FloatText::Finite(neg, digits_value(whole + frac), x - frac.len()))
            } else {
                None
            },
            None => None,
        }
    }
}

/// `a × u × 10^e`, cut to an integer.
pub open spec fn scaled_floor(a: nat, u: nat, e: int) -> nat {
    if e >= 0 {
        a * u * pow10(e as nat)
    } else {
        a * u / pow10((-e) as nat)
    }
}

/// The whole milliseconds a number gives when converted to a `u64`: cut
/// toward zero, negative numbers and NaN at 0, numbers past `u64::MAX`
/// held at it.
pub open spec fn millis_of(f: FloatText) -> nat {
    match f {
        FloatText::Finite(neg, a, e) => if neg {
            0
        } else if scaled_floor(a, 1, e) <= u64::MAX {
            scaled_floor(a, 1, e)
        } else {
            u64::MAX as nat
        },
        FloatText::Infinite(neg) => if neg {
            0
        } else {
            u64::MAX as nat
        },
        FloatText::NotANumber => 0,
    }
}

/// The nanoseconds of a number of units of `u` nanoseconds each, cut to a
/// whole nanosecond; `None` where there is no such duration: the number is
/// not finite, below zero, or past `u64::MAX` seconds.
pub open spec fn unit_count_nanos(f: FloatText, u: nat) -> Option<nat> {
    match f {
        FloatText::Finite(neg, a, e) => if neg && a > 0 {
            None
        } else if scaled_floor(a, u, e) / 1_000_000_000 <= u64::MAX {
            Some(scaled_floor(a, u, e))
        } else {
            None
        },
        _ => None,
    }
}

/// The nanoseconds in one of a unit named by its suffix letter, in either case.
pub open spec fn unit_nanos(c: char) -> Option<nat> {
    if c == 's' || c == 'S' {
        Some(1_000_000_000)
    } else if c == 'm' || c == 'M' {
        Some(60_000_000_000)
    } else if c == 'h' || c == 'H' {
        Some(3_600_000_000_000)
    } else if c == 'd' || c == 'D' {
        Some(86_400_000_000_000)
    } else {
        None
    }
}

/// The text ends in `ms`.
pub open spec fn ends_in_ms(t: Seq<char>) -> bool {
    t.len() >= 2 && t[t.len() - 2] == 'm' && t[t.len() - 1] == 's'
}

/// What `parse_duration` makes of a trimmed text: the length in nanoseconds,
/// or the message of the configuration error; `None` where there is no
/// answer (a last character that is not ASCII, or a number of units with
/// no duration, see `unit_count_nanos`).
///
/// A bare whole number counts seconds; `ms` counts whole milliseconds (see
/// `millis_of`); `s`, `m`, `h` and `d` scale a number, cut to whole
/// nanoseconds.
pub open spec fn duration_outcome(t: Seq<char>) -> Option<Result<nat, Seq<char>>> {
    if t.len() == 0 {
        Some(Err("Duration string cannot be empty"@))
    } else if (t.last() as u32) >= 128 {
        None
    } else if parse_unsigned(t, u64::MAX as nat) is Some {
        Some(Ok(parse_unsigned(t, u64::MAX as nat).unwrap() * 1_000_000_000))
    } else if ends_in_ms(t) {
        match float_text(trim(t.take(t.len() - 2))) {
            Some(f) => Some(Ok(millis_of(f) * 1_000_000)),
            None => Some(Err("Invalid duration value: "@ + t)),
        }
    } else {
        match float_text(trim(t.drop_last())) {
            None => Some(Err("Invalid duration value: "@ + t)),
            Some(f) => match unit_nanos(t.last()) {
                Some(u) => match unit_count_nanos(f, u) {
                    Some(n) => Some(Ok(n)),
                    None => None,
                },
                None => Some(Err("Unknown duration suffix: "@ + seq![t.last()])),
            },
        }
    }
}

/// The inputs `parse_duration` has an answer for (see `duration_outcome`).
pub open spec fn duration_input_ok(s: Seq<char>) -> bool {
    duration_outcome(trim(s)) is Some
}

proof fn lemma_pow10_positive(k: nat)
    ensures
        pow10(k) >= 1,
    decreases k,
{
    if k > 0 {
        lemma_pow10_positive((k - 1) as nat);
    }
}

/// Digits written after other digits shift them by a power of ten.
proof fn lemma_digits_concat(a: Seq<char>, b: Seq<char>)
    ensures
        digits_value(a + b) == digits_value(a) * pow10(b.len()) + digits_value(b),
    decreases b.len(),
{
    if b.len() == 0 {
        assert(a + b =~= a);
        assert(pow10(b.len()) == 1);
        assert(digits_value(b) == 0);
    } else {
        let m = b.len();
        assert((a + b).drop_last() =~= a + b.drop_last());
        assert((a + b).last() == b.last());
        lemma_digits_concat(a, b.drop_last());
        assert(digits_value(a + b) == digits_value((a + b).drop_last()) * 10 + digit_value(
            (a + b).last(),
        ));
        assert(digits_value(b) == digits_value(b.drop_last()) * 10 + digit_value(b.last()));
        assert(pow10(m) == 10 * pow10((m - 1) as nat));
        let x = digits_value(a);
        let y = pow10((m - 1) as nat);
        let z = digits_value(b.drop_last());
        assert((x * y + z) * 10 == x * (10 * y) + z * 10) by (nonlinear_arith);
        assert(digits_value(a + b.drop_last()) == x * y + z);
        assert(digits_value(a + b) == (x * y + z) * 10 + digit_value(b.last()));
        assert(digits_value(a) * pow10(b.len()) == x * (10 * y));
    }
}

/// Scaling a fraction `0.d r` by `u`, cut to an integer, from the scaled
/// fraction `0.r`.
proof fn lemma_frac_step(f: Seq<char>, u: nat)
    requires
        f.len() > 0,
    ensures
        digits_value(f) * u / pow10(f.len()) == (digit_value(f[0]) * u + digits_value(f.drop_first()) * u
            / pow10((f.len() - 1) as nat)) / 10,
{
    let r = f.drop_first();
    let m = r.len();
    assert(f =~= seq![f[0]] + r);
    lemma_digits_concat(seq![f[0]], r);
    assert(seq![f[0]].drop_last() =~= Seq::<char>::empty());
    let d = digit_value(f[0]);
    let one = seq![f[0]];
    assert(one.len() == 1 && one.last() == f[0]);
    assert(digits_value(one) == digits_value(one.drop_last()) * 10 + digit_value(one.last()));
    assert(digits_value(one) == d);
    let p = pow10(m);
    lemma_pow10_positive(m);
    let x = digits_value(f) * u;
    assert(x == (d * u) * p + digits_value(r) * u) by (nonlinear_arith)
        requires
            digits_value(f) == d * p + digits_value(r),
            x == digits_value(f) * u,
    ;
    vstd::arithmetic::div_mod::lemma_hoist_over_denominator((digits_value(r) * u) as int, (d * u) as int, p);
    assert((d * u) * p == (d * u) * (p as int));
    vstd::arithmetic::div_mod::lemma_div_denominator(x as int, p as int, 10);
    assert(pow10(f.len()) == 10 * p);
    assert(p * 10 == 10 * p);
}

/// The digits `f` read as a fraction `0.f`, scaled by `u` and cut to an integer.
fn scaled_fraction(f: &[char], u: u128) -> (r: u128)
    requires
        digits_only(f@),
        0 < u < 0x1_0000_0000_0000_0000,
    ensures
        r == digits_value(f@) * u / (pow10(f@.len()) as int),
        r < u,
{
    let mut acc: u128 = 0;
    let mut j: usize = f.len();
    proof {
        assert(f@.skip(j as int) =~= Seq::<char>::empty());
        assert(digits_value(f@.skip(j as int)) == 0);
        assert(pow10(0) == 1);
    }
    while j > 0
        invariant
            j <= f@.len(),
            digits_only(f@),
            0 < u < 0x1_0000_0000_0000_0000,
            acc == digits_value(f@.skip(j as int)) * u / (pow10(f@.skip(j as int).len()) as int),
            acc < u,
        decreases j,
    {
        let c = f[j - 1];
        assert(is_digit(f@[j - 1]));
        let d = (c as u32 - '0' as u32) as u128;
        proof {
            let g = f@.skip(j - 1);
            assert(g[0] == c);
            assert(g.drop_first() =~= f@.skip(j as int));
            lemma_frac_step(g, u as nat);
            assert(d * u + acc < 10 * u) by (nonlinear_arith)
                requires
                    d <= 9,
                    acc < u,
            ;
        }
        acc = (d * u + acc) / 10;
        j = j - 1;
    }
    proof {
        assert(f@.skip(0) =~= f@);
    }
    acc
}

/// How many decimal digits open `s[from..]`.
fn count_leading_digits(s: &[char], from: usize) -> (p: usize)
    requires
        from <= s@.len(),
    ensures
        from <= p <= s@.len(),
        p - from == leading_digits(s@.skip(from as int)),
        digits_only(s@.subrange(from as int, p as int)),
{
    let mut p: usize = from;
    while p < s.len() && '0' <= s[p] && s[p] <= '9'
        invariant
            from <= p <= s@.len(),
            leading_digits(s@.skip(from as int)) == (p - from) + leading_digits(s@.skip(p as int)),
            digits_only(s@.subrange(from as int, p as int)),
        decreases s.len() - p,
    {
        proof {
            assert(s@.skip(p as int).drop_first() =~= s@.skip(p + 1));
            assert(s@.subrange(from as int, p + 1) =~= s@.subrange(from as int, p as int).push(s@[p as int]));
        }
        p = p + 1;
    }
    p
}

/// A run of `n` zero digits.
pub open spec fn zeros(n: nat) -> Seq<char> {
    Seq::new(n, |i: int| '0')
}

/// The value of an exponent written as a sign and digits.
pub open spec fn signed_value(neg: bool, digits: Seq<char>) -> int {
    if neg {
        -digits_value(digits)
    } else {
        digits_value(digits) as int
    }
}

proof fn lemma_pow10_add(a: nat, b: nat)
    ensures
        pow10(a + b) == pow10(a) * pow10(b),
    decreases b,
{
    if b > 0 {
        lemma_pow10_add(a, (b - 1) as nat);
        assert(pow10(a + b) == 10 * pow10((a + b - 1) as nat));
        assert(pow10(b) == 10 * pow10((b - 1) as nat));
        let x = pow10(a);
        let y = pow10((b - 1) as nat);
        assert(10 * (x * y) == x * (10 * y)) by (nonlinear_arith);
    } else {
        assert(pow10(0) == 1);
        assert(a + b == a);
    }
}

proof fn lemma_pow10_grows(a: nat, b: nat)
    requires
        a <= b,
    ensures
        pow10(a) <= pow10(b),
{
    lemma_pow10_add(a, (b - a) as nat);
    lemma_pow10_positive((b - a) as nat);
    let x = pow10(a);
    let y = pow10((b - a) as nat);
    assert(x <= x * y) by (nonlinear_arith)
        requires
            y >= 1,
    ;
}

proof fn lemma_pow10_twenty()
    ensures
        pow10(14) == 100_000_000_000_000,
        pow10(20) == 100_000_000_000_000_000_000,
{
    reveal_with_fuel(pow10, 21);
}

/// Digits stay below the next power of ten.
proof fn lemma_digits_below(s: Seq<char>)
    requires
        digits_only(s),
    ensures
        digits_value(s) < pow10(s.len()),
    decreases s.len(),
{
    if s.len() > 0 {
        let r = s.drop_last();
        assert(digits_only(r)) by {
            assert forall|i: int| 0 <= i < r.len() implies is_digit(#[trigger] r[i]) by {
                assert(r[i] == s[i]);
            }
        }
        lemma_digits_below(r);
        assert(is_digit(s[s.len() - 1]));
        assert(digit_value(s.last()) <= 9);
        assert(pow10(s.len()) == 10 * pow10(r.len()));
    }
}

proof fn lemma_zeros_value(n: nat)
    ensures
        digits_value(zeros(n)) == 0,
        digits_only(zeros(n)),
    decreases n,
{
    if n > 0 {
        assert(zeros(n).drop_last() =~= zeros((n - 1) as nat));
        lemma_zeros_value((n - 1) as nat);
    }
}

/// A prefix of a run of digits is worth no more than the whole run.
proof fn lemma_prefix_value_bounds(s: Seq<char>, j: int)
    requires
        digits_only(s),
        0 <= j <= s.len(),
    ensures
        digits_value(s.take(j)) <= digits_value(s),
{
    let a = s.take(j);
    let b = s.skip(j);
    assert(s =~= a + b);
    lemma_digits_concat(a, b);
    lemma_pow10_positive(b.len());
    let x = digits_value(a);
    let y = pow10(b.len());
    assert(x <= x * y) by (nonlinear_arith)
        requires
            y >= 1,
    ;
}

/// The text is the word `w` (lower case) in any mix of ASCII cases.
fn word_is(b: &[char], w: &str) -> (r: bool)
    ensures
        r == word_ignoring_case(b@, w@),
{
    let wc = chars_of(w);
    if b.len() != wc.len() {
        return false;
    }
    let mut i: usize = 0;
    while i < b.len()
        invariant
            b@.len() == wc@.len() == w@.len(),
            wc@ == w@,
            i <= b@.len(),
            forall|k: int| 0 <= k < i ==> letter_is(#[trigger] b@[k], w@[k]),
        decreases b.len() - i,
    {
        let c = b[i];
        let d = wc[i];
        if !(c == d || (d as u32 >= 32 && c as u32 == d as u32 - 32)) {
            return false;
        }
        i = i + 1;
    }
    true
}

/// A number's text as `read_float` finds it.
enum FloatRead {
    /// A finite number: its sign, all its digits, how many of them follow
    /// the point, and the sign and digits of its exponent.
    Finite { neg: bool, digits: Vec<char>, frac_len: usize, exp_neg: bool, exp: Vec<char> },
    Infinite { neg: bool },
    NotANumber,
}

/// `r` is what `f` says, written out.
spec fn read_as(r: FloatRead, f: FloatText) -> bool {
    match r {
        FloatRead::Finite { neg, digits, frac_len, exp_neg, exp } => {
            &&& digits_only(digits@)
            &&& digits_only(exp@)
            &&& frac_len <= digits@.len()
            &&& f == FloatText::Finite(neg, digits_value(digits@), signed_value(exp_neg, exp@) - frac_len)
        },
        FloatRead::Infinite { neg } => f == FloatText::Infinite(neg),
        FloatRead::NotANumber => f == FloatText::NotANumber,
    }
}

/// Reads the mantissa of a number's text (see `mantissa_parts`): all its
/// digits, how many follow the point, and where the rest begins.
fn read_mantissa(b: &[char]) -> (r: (Vec<char>, usize, usize))
    ensures
        ({
            let (whole, frac, rest) = mantissa_parts(b@);
            &&& r.0@ == whole + frac
            &&& r.1 == frac.len()
            &&& r.2 <= b@.len()
            &&& rest == b@.skip(r.2 as int)
            &&& digits_only(r.0@)
        }),
{
    let n = b.len();
    let p = count_leading_digits(b, 0);
    proof {
        assert(b@.skip(0) =~= b@);
    }
    let mut digits = copy_range(b, 0, p);
    let ghost whole = b@.take(p as int);
    assert(digits@ =~= whole);
    assert(digits_only(whole)) by {
        assert(whole =~= b@.subrange(0, p as int));
    }
    if p < n && b[p] == '.' {
        let q = count_leading_digits(b, p + 1);
        let mut f = copy_range(b, p + 1, q);
        let ghost frac = f@;
        proof {
            let a = b@.skip(p + 1);
            assert(a.take(q - p - 1) =~= f@);
            assert(a.skip(q - p - 1) =~= b@.skip(q as int));
        }
        digits.append(&mut f);
        proof {
            assert(digits@ =~= whole + frac);
            assert(digits_only(digits@)) by {
                assert forall|i: int| 0 <= i < digits@.len() implies is_digit(#[trigger] digits@[i]) by {
                    if i < whole.len() {
                        assert(digits@[i] == whole[i]);
                    } else {
                        assert(digits@[i] == frac[i - whole.len()]);
                    }
                }
            }
        }
        (digits, q - (p + 1), q)
    } else {
        proof {
            assert(digits@ + Seq::<char>::empty() =~= digits@);
        }
        (digits, 0, p)
    }
}

/// Reads the exponent that begins at `j` (see `exponent_of`): its sign and
/// digits.
fn read_exponent(b: &[char], j: usize) -> (r: Option<(bool, Vec<char>)>)
    requires
        j <= b@.len(),
    ensures
        match exponent_of(b@.skip(j as int)) {
            Some(x) => r matches Some(e) && digits_only(e.1@) && signed_value(e.0, e.1@) == x,
            None => r is None,
        },
{
    let n = b.len();
    if j == n {
        proof {
            assert(b@.skip(j as int) =~= Seq::<char>::empty());
            assert(digits_value(Seq::<char>::empty()) == 0);
        }
        return Some((false, Vec::new()));
    }
    if b[j] != 'e' && b[j] != 'E' {
        return None;
    }
    let mut exp_neg = false;
    let mut y: usize = j + 1;
    if y < n && b[y] == '-' {
        exp_neg = true;
        y = y + 1;
    } else if y < n && b[y] == '+' {
        y = y + 1;
    }
    let z = count_leading_digits(b, y);
    let ghost body = b@.skip(y as int);
    proof {
        let rest = b@.skip(j as int);
        let x = rest.drop_first();
        assert(x =~= b@.skip(j + 1));
        if exp_neg {
            assert(x.drop_first() =~= body);
        } else {
            assert(unsigned_body(x) =~= body);
        }
        if z < n {
            assert(body[z - y] == b@[z as int]);
            lemma_first_non_digit(body, (z - y) as int);
        }
    }
    if z < n || z == y {
        return None;
    }
    let exp = copy_range(b, y, n);
    proof {
        assert(exp@ =~= body);
        assert(exp@ =~= b@.subrange(y as int, z as int));
    }
    Some((exp_neg, exp))
}

/// Reads a number's text as `float_text` describes it.
fn read_float(s: &[char]) -> (r: Option<FloatRead>)
    ensures
        match r {
            Some(x) => float_text(s@) is Some && read_as(x, float_text(s@)->0),
            None => float_text(s@) is None,
        },
{
    let neg = s.len() > 0 && s[0] == '-';
    let start: usize = if s.len() > 0 && (s[0] == '-' || s[0] == '+') { 1 } else { 0 };
    let b = copy_range(s, start, s.len());
    proof {
        if start == 1 {
            assert(b@ =~= s@.drop_first());
        } else {
            assert(b@ =~= s@);
        }
        assert(b@ == unsigned_float_body(s@));
    }
    if word_is(b.as_slice(), "inf") || word_is(b.as_slice(), "infinity") {
        return Some(FloatRead::Infinite { neg });
    }
    if word_is(b.as_slice(), "nan") {
        return Some(FloatRead::NotANumber);
    }
    let (digits, frac_len, j) = read_mantissa(b.as_slice());
    let (exp_neg, exp) = match read_exponent(b.as_slice(), j) {
        Some(e) => e,
        None => {
            return None;
        },
    };
    if digits.len() == 0 {
        return None;
    }
    Some(FloatRead::Finite { neg, digits, frac_len, exp_neg, exp })
}

/// The first character past the leading digits is no digit, so the text is
/// not all digits.
proof fn lemma_first_non_digit(b: Seq<char>, i: int)
    requires
        i == leading_digits(b),
        i < b.len(),
    ensures
        !is_digit(b[i]),
        !all_digits(b),
    decreases i,
{
    if i > 0 {
        lemma_first_non_digit(b.drop_first(), i - 1);
        assert(b.drop_first()[i - 1] == b[i]);
    }
}

/// The value of a run of digits, held at `cap`.
fn digits_saturating(d: &[char], cap: u128) -> (r: u128)
    requires
        digits_only(d@),
        cap <= 0x1_0000_0000_0000_0000_0000_0000,
    ensures
        r == (if digits_value(d@) <= cap {
            digits_value(d@)
        } else {
            cap as nat
        }),
{
    let mut acc: u128 = 0;
    let mut i: usize = 0;
    proof {
        assert(d@.take(0) =~= Seq::<char>::empty());
    }
    while i < d.len()
        invariant
            digits_only(d@),
            cap <= 0x1_0000_0000_0000_0000_0000_0000,
            i <= d@.len(),
            acc == (if digits_value(d@.take(i as int)) <= cap {
                digits_value(d@.take(i as int))
            } else {
                cap as nat
            }),
        decreases d.len() - i,
    {
        let c = d[i];
        assert(is_digit(d@[i as int]));
        let v = (c as u32 - '0' as u32) as u128;
        proof {
            assert(d@.take(i + 1).drop_last() =~= d@.take(i as int));
            assert(d@.take(i + 1).last() == c);
        }
        acc = acc * 10 + v;
        if acc > cap {
            acc = cap;
        }
        i = i + 1;
    }
    proof {
        assert(d@.take(d@.len() as int) =~= d@);
    }
    acc
}

/// Whether every digit is zero: the value is zero.
fn all_zero(d: &[char]) -> (r: bool)
    requires
        digits_only(d@),
    ensures
        r == (digits_value(d@) == 0),
{
    let mut i: usize = 0;
    proof {
        assert(d@.take(0) =~= Seq::<char>::empty());
    }
    while i < d.len()
        invariant
            digits_only(d@),
            i <= d@.len(),
            digits_value(d@.take(i as int)) == 0,
        decreases d.len() - i,
    {
        proof {
            assert(d@.take(i + 1).drop_last() =~= d@.take(i as int));
            assert(d@.take(i + 1).last() == d@[i as int]);
        }
        if d[i] != '0' {
            proof {
                assert(is_digit(d@[i as int]));
                lemma_prefix_value_bounds(d@, i + 1);
            }
            return false;
        }
        i = i + 1;
    }
    proof {
        assert(d@.take(d@.len() as int) =~= d@);
    }
    true
}

/// The digits with `z` zeros put before them, or after them.
fn pad_zeros(d: &[char], z: usize, before: bool) -> (r: Vec<char>)
    ensures
        r@ == (if before {
            zeros(z as nat) + d@
        } else {
            d@ + zeros(z as nat)
        }),
{
    let mut r: Vec<char> = Vec::new();
    if !before {
        r = copy_range(d, 0, d.len());
        assert(r@ =~= d@);
    }
    let ghost base = r@;
    let mut i: usize = 0;
    while i < z
        invariant
            i <= z,
            r@ == base + zeros(i as nat),
        decreases z - i,
    {
        r.push('0');
        assert(r@ =~= base + zeros((i + 1) as nat));
        i = i + 1;
    }
    if before {
        let mut rest = copy_range(d, 0, d.len());
        r.append(&mut rest);
        assert(r@ =~= zeros(z as nat) + d@);
    } else {
        assert(r@ =~= d@ + zeros(z as nat));
    }
    r
}

/// The digits split at `pos`: the whole part times `u`, plus the rest read
/// as a fraction and scaled by `u`, cut to an integer; `None` when the whole
/// part is past `u64::MAX`.
fn split_scaled(d: &[char], pos: usize, u: u128) -> (r: Option<u128>)
    requires
        digits_only(d@),
        pos <= d@.len(),
        1 <= u <= 100_000_000_000_000,
    ensures
        match r {
            Some(x) => x == scaled_floor(digits_value(d@), u as nat, pos - d@.len()),
            None => scaled_floor(digits_value(d@), u as nat, pos - d@.len()) >= 0x1_0000_0000_0000_0000 * u,
        },
{
    let w = copy_range(d, 0, pos);
    let f = copy_range(d, pos, d.len());
    let ghost m = (d@.len() - pos) as nat;
    proof {
        assert(d@ =~= w@ + f@);
        assert(digits_only(w@)) by {
            assert forall|i: int| 0 <= i < w@.len() implies is_digit(#[trigger] w@[i]) by {
                assert(w@[i] == d@[i]);
            }
        }
        assert(digits_only(f@)) by {
            assert forall|i: int| 0 <= i < f@.len() implies is_digit(#[trigger] f@[i]) by {
                assert(f@[i] == d@[pos + i]);
            }
        }
        lemma_digits_concat(w@, f@);
        lemma_pow10_positive(m);
        lemma_whole_plus_fraction(digits_value(w@), digits_value(f@), u as nat, pow10(m));
        if m == 0 {
            assert(pow10(0) == 1);
        }
    }
    let part = scaled_fraction(f.as_slice(), u);
    match parse_whole(w.as_slice()) {
        Some(v) => {
            assert(v * u <= 0xffff_ffff_ffff_ffff * 100_000_000_000_000) by (nonlinear_arith)
                requires
                    v <= 0xffff_ffff_ffff_ffff,
                    u <= 100_000_000_000_000,
            ;
            proof {
                if m == 0 {
                    assert(f@.len() == 0);
                    assert(digits_value(f@) == 0);
                    assert(scaled_floor(digits_value(d@), u as nat, 0) == digits_value(d@) * u * 1);
                }
            }
            Some(v as u128 * u + part)
        },
        None => {
            proof {
                let wv = digits_value(w@);
                assert(wv * u >= 0x1_0000_0000_0000_0000 * u) by (nonlinear_arith)
                    requires
                        wv >= 0x1_0000_0000_0000_0000,
                ;
                if m == 0 {
                    assert(digits_value(f@) == 0);
                    assert(scaled_floor(digits_value(d@), u as nat, 0) == digits_value(d@) * u * 1);
                }
            }
            None
        },
    }
}

/// The digits read as one integer, scaled by `u` and by ten to the power
/// `exp - k`, cut to an integer; `None` when that reaches `2^64 × u`.
fn scaled_floor_capped(d: &[char], k: usize, exp_neg: bool, exp: &[char], u: u128) -> (r: Option<u128>)
    requires
        digits_only(d@),
        digits_only(exp@),
        k <= d@.len(),
        1 <= u <= 100_000_000_000_000,
    ensures
        match r {
            Some(x) => x == scaled_floor(digits_value(d@), u as nat, signed_value(exp_neg, exp@) - k),
            None => scaled_floor(digits_value(d@), u as nat, signed_value(exp_neg, exp@) - k)
                >= 0x1_0000_0000_0000_0000 * u,
        },
{
    let ghost a = digits_value(d@);
    let ghost xe = digits_value(exp@);
    let ghost e = signed_value(exp_neg, exp@) - k;
    if all_zero(d) {
        proof {
            let uu = u as nat;
            assert(a * uu == 0) by (nonlinear_arith)
                requires
                    a == 0,
            ;
            if e >= 0 {
                let p = pow10(e as nat);
                assert(a * uu * p == 0) by (nonlinear_arith)
                    requires
                        a * uu == 0,
                ;
            }
            if e < 0 {
                lemma_pow10_positive((-e) as nat);
                assert(0nat / pow10((-e) as nat) == 0) by (nonlinear_arith)
                    requires
                        pow10((-e) as nat) >= 1,
                ;
            }
        }
        return Some(0);
    }
    let cap: u128 = 0x40_0000_0000_0000_0000;
    let x = digits_saturating(exp, cap);
    let len = d.len();
    let kk = k as u128;
    let ll = len as u128;
    proof {
        lemma_pow10_twenty();
        lemma_digits_below(d@);
    }
    if !exp_neg {
        if x >= kk + 20 {
            proof {
                assert(e >= 20);
                lemma_pow10_grows(20, e as nat);
                let p = pow10(e as nat);
                assert(a * u * p >= 0x1_0000_0000_0000_0000 * u) by (nonlinear_arith)
                    requires
                        a >= 1,
                        p >= 100_000_000_000_000_000_000,
                        u >= 1,
                ;
            }
            return None;
        }
        if x >= kk {
            let z = (x - kk) as usize;
            let w = pad_zeros(d, z, false);
            proof {
                assert(e == z);
                lemma_zeros_value(z as nat);
                lemma_digits_concat(d@, zeros(z as nat));
                assert(digits_only(w@)) by {
                    assert forall|i: int| 0 <= i < w@.len() implies is_digit(#[trigger] w@[i]) by {
                        if i < d@.len() {
                            assert(w@[i] == d@[i]);
                        } else {
                            assert(w@[i] == zeros(z as nat)[i - d@.len()]);
                        }
                    }
                }
                let p = pow10(z as nat);
                assert(zeros(z as nat).len() == z);
                assert(digits_value(w@) == a * p);
                assert(a * u * p == (a * p) * u) by (nonlinear_arith);
                assert(pow10(0) == 1);
                assert(scaled_floor(digits_value(w@), u as nat, 0) == digits_value(w@) * u * 1);
                assert(scaled_floor(a, u as nat, e) == a * u * p);
            }
            return split_scaled(w.as_slice(), w.len(), u);
        }
        let m = (kk - x) as usize;
        proof {
            assert(e == -(m as int));
        }
        return split_scaled(d, len - m, u);
    }
    if x + kk > ll + 20 {
        proof {
            assert(-e >= len + 21);
            let mm = (-e) as nat;
            lemma_pow10_add(len as nat, 20);
            lemma_pow10_grows(len as nat + 20, mm);
            let pl = pow10(len as nat);
            assert(a * u < pl * 100_000_000_000_000_000_000) by (nonlinear_arith)
                requires
                    a < pl,
                    u <= 100_000_000_000_000,
                    u >= 1,
            ;
            assert(a * u < pow10(mm));
            vstd::arithmetic::div_mod::lemma_basic_div((a * u) as int, pow10(mm) as int);
        }
        return Some(0);
    }
    let m = x + kk;
    if m <= ll {
        proof {
            assert(e == -(m as int));
        }
        return split_scaled(d, (ll - m) as usize, u);
    }
    let z = (m - ll) as usize;
    let f = pad_zeros(d, z, true);
    proof {
        lemma_zeros_value(z as nat);
        lemma_digits_concat(zeros(z as nat), d@);
        assert(digits_only(f@)) by {
            assert forall|i: int| 0 <= i < f@.len() implies is_digit(#[trigger] f@[i]) by {
                if i < z {
                    assert(f@[i] == zeros(z as nat)[i]);
                } else {
                    assert(f@[i] == d@[i - z]);
                }
            }
        }
        assert(digits_value(f@) == a);
        assert(f@.len() == m);
        assert(e == -(m as int));
    }
    let part = scaled_fraction(f.as_slice(), u);
    Some(part)
}

/// A duration of the given total nanoseconds.
fn from_total_nanos(t: u128) -> (d: Duration)
    requires
        t / 1_000_000_000 <= u64::MAX,
    ensures
        d.total_nanos() == t,
{
    let d = Duration { secs: (t / 1_000_000_000) as u64, nanos: (t % 1_000_000_000) as u32 };
    assert(d.total_nanos() == t);
    d
}

/// A configuration error with the given message.
fn config_error(m: Vec<char>) -> (e: ConduitError)
    ensures
        e matches ConduitError::ConfigError(s) && s@ == m@,
{
    ConduitError::ConfigError(string_of(m.as_slice()))
}

/// Parse a duration string such as `"30s"`, `"5m"`, `"1h"`, `"2d"`,
/// `"500ms"`, or `"90"` (seconds when there is no suffix).
fn parse_duration_checked(input: &str) -> (r: Option<Result<Duration, ConduitError>>)
    ensures
        r is None <==> !duration_input_ok(input@),
        r matches Some(x) ==> match duration_outcome(trim(input@)) {
            Some(Ok(n)) => x matches Ok(d) && d.total_nanos() == n,
            Some(Err(m)) => x matches Err(ConduitError::ConfigError(e)) && e@ == m,
            None => false,
        },
{
    let t = trim_chars(chars_of(input).as_slice());
    let n = t.len();
    if n == 0 {
        let mut m: Vec<char> = Vec::new();
        push_str(&mut m, "Duration string cannot be empty");
        return Some(Err(config_error(m)));
    }
    let last_code: u32 = t[n - 1] as u32;
    proof {
        assert(t@.last() == t@[n - 1]);
    }
    if last_code >= 128 {
        return None;
    }
    if let Some(secs) = parse_unsigned_chars(t.as_slice(), u64::MAX) {
        return Some(Ok(Duration::from_secs(secs)));
    }
    let mut invalid: Vec<char> = Vec::new();
    push_str(&mut invalid, "Invalid duration value: ");
    let ghost prefix = invalid@;
    let mut k: usize = 0;
    while k < n
        invariant
            k <= n == t@.len(),
            invalid@ == prefix + t@.take(k as int),
        decreases n - k,
    {
        invalid.push(t[k]);
        proof {
            assert(t@.take(k + 1) =~= t@.take(k as int).push(t@[k as int]));
        }
        k = k + 1;
    }
    proof {
        assert(t@.take(n as int) =~= t@);
    }
    if n >= 2 && t[n - 2] == 'm' && t[n - 1] == 's' {
        let num = trim_chars(copy_range(t.as_slice(), 0, n - 2).as_slice());
        proof {
            assert(t@.subrange(0, n - 2) =~= t@.take(n - 2));
        }
        let millis: u64 = match read_float(num.as_slice()) {
            None => {
                return Some(Err(config_error(invalid)));
            },
            Some(FloatRead::NotANumber) => 0,
            Some(FloatRead::Infinite { neg }) => if neg {
                0
            } else {
                u64::MAX
            },
            Some(FloatRead::Finite { neg, digits, frac_len, exp_neg, exp }) => if neg {
                0
            } else {
                match scaled_floor_capped(digits.as_slice(), frac_len, exp_neg, exp.as_slice(), 1) {
                    Some(v) => if v > u64::MAX as u128 {
                        u64::MAX
                    } else {
                        v as u64
                    },
                    None => u64::MAX,
                }
            },
        };
        return Some(Ok(Duration::from_millis(millis)));
    }
    let num = trim_chars(copy_range(t.as_slice(), 0, n - 1).as_slice());
    proof {
        assert(t@.subrange(0, n - 1) =~= t@.drop_last());
    }
    let read = match read_float(num.as_slice()) {
        Some(r) => r,
        None => {
            return Some(Err(config_error(invalid)));
        },
    };
    let c = t[n - 1];
    let unit: u128 = if c == 's' || c == 'S' {
        1_000_000_000
    } else if c == 'm' || c == 'M' {
        60_000_000_000
    } else if c == 'h' || c == 'H' {
        3_600_000_000_000
    } else if c == 'd' || c == 'D' {
        86_400_000_000_000
    } else {
        let mut m: Vec<char> = Vec::new();
        push_str(&mut m, "Unknown duration suffix: ");
        m.push(c);
        return Some(Err(config_error(m)));
    };
    match read {
        FloatRead::Finite { neg, digits, frac_len, exp_neg, exp } => {
            if neg && !all_zero(digits.as_slice()) {
                return None;
            }
            match scaled_floor_capped(digits.as_slice(), frac_len, exp_neg, exp.as_slice(), unit) {
                Some(total) => {
                    if total / 1_000_000_000 > u64::MAX as u128 {
                        return None;
                    }
                    Some(Ok(from_total_nanos(total)))
                },
                None => {
                    proof {
                        let v = scaled_floor(digits_value(digits@), unit as nat, signed_value(exp_neg, exp@) - frac_len);
                        assert(v / 1_000_000_000 > u64::MAX) by (nonlinear_arith)
                            requires
                                v >= 0x1_0000_0000_0000_0000 * unit,
                                unit >= 1_000_000_000,
                        ;
                    }
                    None
                },
            }
        },
        _ => None,
    }
}

/// Parse a duration string such as `"30s"`, `"5m"`, `"1h"`, `"2d"`,
/// `"500ms"`, or `"90"` (seconds when there is no suffix).
pub fn parse_duration(input: &str) -> (r: Result<Duration, ConduitError>)
    requires
        duration_input_ok(input@),
    ensures
        match duration_outcome(trim(input@)) {
            Some(Ok(n)) => r matches Ok(d) && d.total_nanos() == n,
            Some(Err(m)) => r matches Err(ConduitError::ConfigError(e)) && e@ == m,
            None => false,
        },
{
    match parse_duration_checked(input) {
        Some(r) => r,
        None => {
            let mut m: Vec<char> = Vec::new();
            push_str(&mut m, "Duration out of range");
            Err(config_error(m))
        },
    }
}

/// Whether `parse_duration` can take the text: its last character is
/// ASCII and the duration it names fits.
pub fn duration_input_in_range(input: &str) -> (b: bool)
    ensures
        b == duration_input_ok(input@),
{
    parse_duration_checked(input).is_some()
}

/// The value of a run of digits, when it fits in a `u64`.
fn parse_whole(d: &[char]) -> (r: Option<u64>)
    requires
        digits_only(d@),
    ensures
        match r {
            Some(v) => v == digits_value(d@),
            None => digits_value(d@) > u64::MAX,
        },
{
    if d.len() == 0 {
        return Some(0);
    }
    proof {
        assert(unsigned_body(d@) == d@);
    }
    parse_unsigned_chars(d, u64::MAX)
}

/// A decimal number's digits, scaled and cut, split into its whole part
/// and its fraction.
proof fn lemma_whole_plus_fraction(w: nat, f: nat, u: nat, p: nat)
    requires
        p >= 1,
    ensures
        (w * p + f) * u / p == w * u + f * u / p,
{
    assert((w * p + f) * u == f * u + (w * u) * p) by (nonlinear_arith);
    vstd::arithmetic::div_mod::lemma_hoist_over_denominator((f * u) as int, (w * u) as int, p);
}

/// What `parse_timeout` gives: the parsed timeout, or one hour when there is
/// none or it does not parse.
pub open spec fn timeout_nanos(timeout: Option<Seq<char>>) -> nat {
    match timeout {
        Some(t) => match duration_outcome(trim(t)) {
            Some(Ok(n)) => n,
            _ => 3600 * 1_000_000_000,
        },
        None => 3600 * 1_000_000_000,
    }
}

/// A task's timeout: its `timeout` text parsed as a duration, or one hour
/// when it has none or the text does not parse.
pub fn parse_timeout(timeout: &Option<String>) -> (d: Duration)
    requires
        timeout matches Some(t) ==> duration_input_ok(t@),
    ensures
        d.total_nanos() == timeout_nanos(
            match timeout {
                Some(t) => Some(t@),
                None => None,
            },
        ),
{
    match timeout {
        Some(t) => match parse_duration(t.as_str()) {
            Ok(d) => d,
            Err(_) => Duration::from_secs(3600),
        },
        None => Duration::from_secs(3600),
    }
}

/// The seconds an interval text gives in the sensor poller: a whole number
/// with an optional `s`, `m`, `h` or `d` suffix; a missing or unreadable
/// number counts as 30, and an empty text is 30 seconds.
pub open spec fn interval_secs(t: Seq<char>) -> nat {
    if t.len() == 0 {
        30
    } else {
        let c = t.last();
        let num = if c == 's' || c == 'm' || c == 'h' || c == 'd' {
            t.drop_last()
        } else {
            t
        };
        let mult: nat = if c == 'm' {
            60
        } else if c == 'h' {
            3600
        } else if c == 'd' {
            86400
        } else {
            1
        };
        let n = match parse_unsigned(num, u64::MAX as nat) {
            Some(v) => v,
            None => 30,
        };
        n * mult
    }
}

/// The number and the unit (in seconds) of an interval text, read the way
/// the sensor poller reads it.
fn interval_parts(s: &str) -> (r: (u64, u64))
    ensures
        r.0 * r.1 == interval_secs(trim(s@)),
{
    let t = trim_chars(chars_of(s).as_slice());
    let n = t.len();
    if n == 0 {
        return (30, 1);
    }
    let c = t[n - 1];
    let num: Vec<char> = if c == 's' || c == 'm' || c == 'h' || c == 'd' {
        proof {
            assert(t@.subrange(0, n - 1) =~= t@.drop_last());
        }
        copy_range(t.as_slice(), 0, n - 1)
    } else {
        t.clone()
    };
    let mult: u64 = if c == 'm' {
        60
    } else if c == 'h' {
        3600
    } else if c == 'd' {
        86400
    } else {
        1
    };
    let v: u64 = match parse_unsigned_chars(num.as_slice(), u64::MAX) {
        Some(v) => v,
        None => 30,
    };
    (v, mult)
}

impl ProcessRunner {
    /// Parse an interval such as `"30s"`, `"5m"`, `"1h"` or `"2d"` the lenient
    /// way the sensor poller does (see `interval_secs`).
    pub fn parse_duration_str(s: &str) -> (d: Duration)
        requires
            interval_secs(trim(s@)) <= u64::MAX,
        ensures
            d.secs_of() == interval_secs(trim(s@)),
            d.subsec_nanos_of() == 0,
    {
        let (v, mult) = interval_parts(s);
        Duration::from_secs(v * mult)
    }

    /// Whether the seconds of an interval text fit in a `u64`, as
    /// `parse_duration_str` needs.
    pub fn interval_in_range(s: &str) -> (b: bool)
        ensures
            b == (interval_secs(trim(s@)) <= u64::MAX),
    {
        let (v, mult) = interval_parts(s);
        v.checked_mul(mult).is_some()
    }
}

/// What a sensor does after a poke.
#[derive(Debug, Clone, Copy, PartialEq, Eq, Structural)]
pub enum SensorStep {
    /// The condition is met: the sensor succeeds with this poke's result.
    Met,
    /// The time is up: the sensor fails.
    TimedOut,
    /// Poke again after the interval.
    Wait,
}

/// Whole seconds of `d`, rounded to the nearest (a half to the even one),
/// as the poller prints an elapsed time.
pub open spec fn rounded_secs(d: Duration) -> nat {
    if d.subsec_nanos_of() > 500_000_000 || (d.subsec_nanos_of() == 500_000_000 && d.secs_of() % 2 == 1) {
        d.secs_of() + 1
    } else {
        d.secs_of()
    }
}

impl ProcessRunner {
    /// The poke interval and the timeout of a sensor: the interval given or
    /// `30s`, the task's timeout or `1h` (read as `parse_duration_str`
    /// does).
    pub fn sensor_timing(poke_interval: &Option<String>, timeout: &Option<String>) -> (r: (Duration, Duration))
        requires
            interval_secs(trim(
                match poke_interval {
                    Some(p) => p@,
                    None => "30s"@,
                },
            )) <= u64::MAX,
            interval_secs(trim(
                match timeout {
                    Some(t) => t@,
                    None => "1h"@,
                },
            )) <= u64::MAX,
        ensures
            r.0.secs_of() == interval_secs(trim(
                match poke_interval {
                    Some(p) => p@,
                    None => "30s"@,
                },
            )),
            r.0.subsec_nanos_of() == 0,
            r.1.secs_of() == interval_secs(trim(
                match timeout {
                    Some(t) => t@,
                    None => "1h"@,
                },
            )),
            r.1.subsec_nanos_of() == 0,
    {
        let interval = match poke_interval {
            Some(p) => ProcessRunner::parse_duration_str(p.as_str()),
            None => ProcessRunner::parse_duration_str("30s"),
        };
        let limit = match timeout {
            Some(t) => ProcessRunner::parse_duration_str(t.as_str()),
            None => ProcessRunner::parse_duration_str("1h"),
        };
        (interval, limit)
    }

    /// The step after a poke that exited with `exit_code`, `elapsed` after
    /// the sensor started: met on exit code 0, timed out once `elapsed`
    /// reaches `timeout`, else wait.
    pub fn sensor_step(exit_code: i32, elapsed: &Duration, timeout: &Duration) -> (s: SensorStep)
        ensures
            s == if exit_code == 0 {
                SensorStep::Met
            } else if elapsed.total_nanos() >= timeout.total_nanos() {
                SensorStep::TimedOut
            } else {
                SensorStep::Wait
            },
    {
        if exit_code == 0 {
            return SensorStep::Met;
        }
        let es = elapsed.as_secs();
        let ts = timeout.as_secs();
        let en = elapsed.subsec_nanos();
        let tn = timeout.subsec_nanos();
        let reached = es > ts || (es == ts && en >= tn);
        proof {
            assert(reached == (elapsed.total_nanos() >= timeout.total_nanos())) by (nonlinear_arith)
                requires
                    es == elapsed.secs_of(),
                    ts == timeout.secs_of(),
                    en == elapsed.subsec_nanos_of(),
                    tn == timeout.subsec_nanos_of(),
                    en < 1_000_000_000,
                    tn < 1_000_000_000,
                    reached == (es > ts || (es == ts && en >= tn)),
                    elapsed.total_nanos() == elapsed.secs_of() * 1_000_000_000 + elapsed.subsec_nanos_of(),
                    timeout.total_nanos() == timeout.secs_of() * 1_000_000_000 + timeout.subsec_nanos_of(),
            ;
        }
        if reached {
            SensorStep::TimedOut
        } else {
            SensorStep::Wait
        }
    }

    /// The line a timed-out sensor adds to its stdout:
    /// `\nCONDUIT::LOG::ERROR::Sensor timed out after {attempts} attempts ({secs}s)`,
    /// with the elapsed seconds rounded.
    pub fn sensor_timeout_line(attempts: u32, elapsed: &Duration) -> (s: String)
        requires
            elapsed.secs_of() < u64::MAX,
        ensures
            s@ == "\nCONDUIT::LOG::ERROR::Sensor timed out after "@ + decimal(attempts as nat)
                + " attempts ("@ + decimal(rounded_secs(*elapsed)) + "s)"@,
    {
        let secs = elapsed.as_secs();
        let nanos = elapsed.subsec_nanos();
        let rounded: u64 = if nanos > 500_000_000 || (nanos == 500_000_000 && secs % 2 == 1) {
            secs + 1
        } else {
            secs
        };
        let mut out: Vec<char> = Vec::new();
        push_str(&mut out, "\nCONDUIT::LOG::ERROR::Sensor timed out after ");
        push_decimal(&mut out, attempts as u64);
        push_str(&mut out, " attempts (");
        push_decimal(&mut out, rounded);
        push_str(&mut out, "s)");
        string_of(out.as_slice())
    }
}

} // verus!
