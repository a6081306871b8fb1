//! Time units, the precision of human-readable output, byte counts and the
//! parts of a human duration.
use vstd::prelude::*;
use crate::text::{chars_of, decimal, push_char, push_decimal, push_str, push_zero_padded, string_from_chars, zero_padded};

verus! {

/// Supported time units
#[derive(Debug, Clone, Copy, PartialEq, Eq, Structural)]
pub enum Unit {
    Second,
    MilliSecond,
    MicroSecond,
}

/// `--precision`: number of decimals in human-readable output.
#[derive(Debug, Clone, Copy, PartialEq, Eq, Structural)]
pub enum Precision {
    /// 3 decimals for seconds, 1 for milliseconds and microseconds
    Default,
    /// A fixed number of decimals
    Fixed(usize),
    /// Mean and σ with the decimals that keep two significant digits of σ
    Auto,
}

impl Default for Precision {
    fn default() -> (p: Precision)
        ensures
            p == Precision::Default,
    {
        Precision::Default
    }
}

/// The slot after a precision is set: an empty one takes it, a filled one
/// keeps what it holds.
pub open spec fn set_once(slot: Option<Precision>, precision: Precision) -> Option<Precision> {
    match slot {
        Some(p) => Some(p),
        None => Some(precision),
    }
}

/// The precision that a slot gives: the one set, else the default.
pub open spec fn current_precision(slot: Option<Precision>) -> Precision {
    match slot {
        Some(p) => p,
        None => Precision::Default,
    }
}

/// Set the precision of human-readable output, once, at startup.
pub fn set_precision(slot: &mut Option<Precision>, precision: Precision)
    ensures
        *final(slot) == set_once(*old(slot), precision),
{
    if slot.is_none() {
        *slot = Some(precision);
    }
}

/// The precision of human-readable output.
pub fn precision(slot: &Option<Precision>) -> (p: Precision)
    ensures
        p == current_precision(*slot),
{
    match slot {
        Some(q) => *q,
        None => Precision::Default,
    }
}

/// `--precision VALUE`: `auto`, or a number of decimals (3 where the
/// value is not a number, which the command line does not let through).
pub open spec fn precision_of_arg(value: Seq<char>) -> Precision {
    if value == "auto"@ {
        Precision::Auto
    } else {
        match crate::text::unsigned_value(value) {
            Some(d) => if d <= usize::MAX { Precision::Fixed(d as usize) } else { Precision::Fixed(3) },
            None => Precision::Fixed(3),
        }
    }
}

/// The precision that `--precision` asks for.
pub fn precision_from_arg(value: &str) -> (p: Precision)
    ensures
        p == precision_of_arg(value@),
{
    let cs = chars_of(value);
    if crate::text::chars_eq(cs.as_slice(), chars_of("auto").as_slice()) {
        return Precision::Auto;
    }
    match crate::text::parse_usize(value) {
        Some(d) => Precision::Fixed(d),
        None => Precision::Fixed(3),
    }
}

/// The precision is set once: before any set it is the default, the first
/// set decides it, and a later set changes nothing.
pub proof fn lemma_precision_is_set_once(first: Precision, second: Precision)
    ensures
        current_precision(None) == Precision::Default,
        current_precision(set_once(None, first)) == first,
        current_precision(set_once(set_once(None, first), second)) == first,
{
}

/// The default number of decimals of a unit.
pub open spec fn unit_decimals(u: Unit) -> nat {
    match u {
        Unit::Second => 3,
        _ => 1,
    }
}

/// The abbreviation of a unit.
pub open spec fn unit_name(u: Unit) -> Seq<char> {
    match u {
        Unit::Second => "s"@,
        Unit::MilliSecond => "ms"@,
        Unit::MicroSecond => "µs"@,
    }
}

impl Unit {
    /// The abbreviation of the Unit.
    pub fn short_name(self) -> (r: String)
        ensures
            r@ == unit_name(self),
    {
        let mut r = String::new();
        match self {
            Unit::Second => push_str(&mut r, "s"),
            Unit::MilliSecond => push_str(&mut r, "ms"),
            Unit::MicroSecond => push_str(&mut r, "µs"),
        }
        r
    }

    /// 3 decimals for seconds, 1 for milliseconds and microseconds.
    pub fn default_decimals(self) -> (d: usize)
        ensures
            d == unit_decimals(self),
    {
        match self {
            Unit::Second => 3,
            Unit::MilliSecond | Unit::MicroSecond => 1,
        }
    }

    /// The number of decimals that `format` shows with this precision.
    pub fn decimals_for(self, precision: Precision) -> (d: usize)
        ensures
            d == match precision {
                Precision::Fixed(n) => n as nat,
                _ => unit_decimals(self),
            },
    {
        match precision {
            Precision::Fixed(decimals) => decimals,
            Precision::Default | Precision::Auto => self.default_decimals(),
        }
    }
}

// ------------------------------------------------------------------------
// Byte counts

/// The number of binary digits of `n` (0 for zero).
pub open spec fn bit_len(n: nat) -> nat
    decreases n,
{
    if n == 0 { 0 } else { 1 + bit_len(n / 2) }
}

pub open spec fn pow2(k: nat) -> nat
    decreases k,
{
    if k == 0 { 1 } else { 2 * pow2((k - 1) as nat) }
}

pub open spec fn pow10(k: nat) -> nat
    decreases k,
{
    if k == 0 { 1 } else { 10 * pow10((k - 1) as nat) }
}

/// `n / d` rounded to the nearest integer, ties to even.
pub open spec fn round_even(n: nat, d: nat) -> nat {
    let q = n / d;
    let r = n % d;
    if 2 * r > d || (2 * r == d && q % 2 == 1) { q + 1 } else { q }
}

/// The value of `n` as a double: rounded to 53 significant bits, ties to
/// even.
pub open spec fn to_double(n: nat) -> nat {
    if bit_len(n) <= 53 {
        n
    } else {
        let p = pow2((bit_len(n) - 53) as nat);
        round_even(n, p) * p
    }
}

/// `num / den` with `d` decimals, rounded to nearest, ties to even.
pub open spec fn fixed_text(num: nat, den: nat, d: nat) -> Seq<char> {
    let scaled = round_even(num * pow10(d), den);
    decimal(scaled / pow10(d)) + seq!['.'] + zero_padded(scaled % pow10(d), d)
}

/// A byte count in B, KB, MB or GB (powers of 1024), as the value of the
/// count as a double with 2 decimals for GB and 1 for MB and KB.
pub open spec fn bytes_text(b: nat) -> Seq<char> {
    let x = to_double(b);
    if x >= pow2(30) {
        fixed_text(x, pow2(30), 2) + " GB"@
    } else if x >= pow2(20) {
        fixed_text(x, pow2(20), 1) + " MB"@
    } else if x >= pow2(10) {
        fixed_text(x, pow2(10), 1) + " KB"@
    } else {
        decimal(b) + " B"@
    }
}

proof fn lemma_pow2_bound(k: nat)
    ensures
        pow2(k) >= 1,
    decreases k,
{
    if k > 0 {
        lemma_pow2_bound((k - 1) as nat);
    }
}

proof fn lemma_bit_len_bound(n: nat, k: nat)
    requires
        n < pow2(k),
    ensures
        bit_len(n) <= k,
    decreases k,
{
    if k > 0 && n > 0 {
        lemma_bit_len_bound(n / 2, (k - 1) as nat);
    }
}

/// `round_even` with integers.
fn round_even_exec(n: u128, d: u128) -> (r: u128)
    requires
        d > 0,
        n / d < u128::MAX,
    ensures
        r == round_even(n as nat, d as nat),
{
    let q = n / d;
    let r = n % d;
    if r > d - r || (r == d - r && q % 2 == 1) {
        q + 1
    } else {
        q
    }
}

proof fn lemma_pow2_monotone(a: nat, b: nat)
    requires
        a <= b,
    ensures
        pow2(a) <= pow2(b),
    decreases b,
{
    if a < b {
        lemma_pow2_monotone(a, (b - 1) as nat);
        lemma_pow2_bound((b - 1) as nat);
    }
}

proof fn lemma_pow2_64()
    ensures
        pow2(64) == 0x1_0000_0000_0000_0000,
{
    reveal_with_fuel(pow2, 65);
}

/// `2^k`.
fn pow2_exec(k: u32) -> (p: u128)
    requires
        k <= 64,
    ensures
        p == pow2(k as nat),
{
    let mut p: u128 = 1;
    let mut i: u32 = 0;
    proof { lemma_pow2_64(); }
    while i < k
        invariant
            i <= k <= 64,
            p == pow2(i as nat),
            pow2(64) == 0x1_0000_0000_0000_0000,
        decreases k - i,
    {
        proof { lemma_pow2_monotone(i as nat, 64); }
        p = p * 2;
        i += 1;
    }
    p
}

proof fn lemma_below_pow2_bit_len(n: nat)
    ensures
        n < pow2(bit_len(n)),
    decreases n,
{
    if n > 0 {
        lemma_below_pow2_bit_len(n / 2);
    }
}

/// The value of `b` as a double (see `to_double`).
fn to_double_exec(b: u64) -> (x: u128)
    ensures
        x == to_double(b as nat),
        x <= b as nat + 2048,
{
    let mut n = b;
    let mut len: u32 = 0;
    proof {
        lemma_pow2_64();
        lemma_bit_len_bound(b as nat, 64);
    }
    while n > 0
        invariant
            bit_len(b as nat) == len + bit_len(n as nat),
            bit_len(b as nat) <= 64,
        decreases n,
    {
        n = n / 2;
        len += 1;
    }
    if len <= 53 {
        return b as u128;
    }
    assert(len - 53 <= 11);
    let p = pow2_exec(len - 53);
    proof {
        lemma_pow2_monotone((len - 53) as nat, 11);
        reveal_with_fuel(pow2, 12);
        assert(pow2(11) == 2048);
        lemma_pow2_bound((len - 53) as nat);
    }
    let bb = b as u128;
    assert(bb / p <= bb) by (nonlinear_arith)
        requires
            p >= 1,
    ;
    let q = round_even_exec(bb, p);
    assert((bb / p) * p <= bb) by (nonlinear_arith)
        requires
            p >= 1,
    ;
    assert(q * p <= bb + p) by (nonlinear_arith)
        requires
            q <= bb / p + 1,
            (bb / p) * p <= bb,
            p >= 1,
    ;
    q * p
}

/// Appends `num / 2^k` with `d` decimals (see `fixed_text`).
fn push_fixed(s: &mut String, num: u128, k: u32, d: u32)
    requires
        num <= 0x2_0000_0000_0000_0000,
        10 <= k <= 30,
        1 <= d <= 2,
    ensures
        final(s)@ == old(s)@ + fixed_text(num as nat, pow2(k as nat), d as nat),
{
    let den = pow2_exec(k);
    let scale: u128 = if d == 1 { 10 } else { 100 };
    proof {
        reveal_with_fuel(pow10, 3);
        lemma_pow2_monotone(10, k as nat);
        reveal_with_fuel(pow2, 11);
    }
    assert(scale == pow10(d as nat));
    let n = num * scale;
    assert(n / den <= n / 1024) by (nonlinear_arith)
        requires
            den >= 1024,
    ;
    let scaled = round_even_exec(n, den);
    let int_part = scaled / scale;
    let frac = scaled % scale;
    assert(int_part <= scaled);
    push_decimal(s, int_part as u64);
    push_char(s, '.');
    push_zero_padded(s, frac as u64, d as usize);
}

/// Format a byte count into a human-readable string (B, KB, MB, GB).
pub fn format_bytes(bytes: u64) -> (s: String)
    ensures
        s@ == bytes_text(bytes as nat),
{
    let x = to_double_exec(bytes);
    let gb = pow2_exec(30);
    let mb = pow2_exec(20);
    let kb = pow2_exec(10);
    let mut s = String::new();
    if x >= gb {
        push_fixed(&mut s, x, 30, 2);
        push_str(&mut s, " GB");
    } else if x >= mb {
        push_fixed(&mut s, x, 20, 1);
        push_str(&mut s, " MB");
    } else if x >= kb {
        push_fixed(&mut s, x, 10, 1);
        push_str(&mut s, " KB");
    } else {
        push_decimal(&mut s, bytes);
        push_str(&mut s, " B");
    }
    s
}

} // verus!

verus! {

// ------------------------------------------------------------------------
// Human durations ("500ms", "2s", "1.5m")

/// The units of a human duration.
#[derive(Debug, Clone, Copy, PartialEq, Eq, Structural)]
pub enum DurationUnit {
    Seconds,
    Milliseconds,
    Microseconds,
    Nanoseconds,
    Minutes,
    Hours,
}

/// The unit named by `s` (no name means seconds).
pub open spec fn duration_unit_of(s: Seq<char>) -> Option<DurationUnit> {
    if s == ""@ || s == "s"@ || s == "sec"@ || s == "secs"@ || s == "second"@ || s == "seconds"@ {
        Some(DurationUnit::Seconds)
    } else if s == "ms"@ || s == "msec"@ || s == "milli"@ || s == "millisecond"@ || s == "milliseconds"@ {
        Some(DurationUnit::Milliseconds)
    } else if s == "us"@ || s == "µs"@ || s == "usec"@ || s == "micro"@ || s == "microsecond"@ || s == "microseconds"@ {
        Some(DurationUnit::Microseconds)
    } else if s == "ns"@ || s == "nsec"@ || s == "nanosecond"@ || s == "nanoseconds"@ {
        Some(DurationUnit::Nanoseconds)
    } else if s == "m"@ || s == "min"@ || s == "mins"@ || s == "minute"@ || s == "minutes"@ {
        Some(DurationUnit::Minutes)
    } else if s == "h"@ || s == "hr"@ || s == "hrs"@ || s == "hour"@ || s == "hours"@ {
        Some(DurationUnit::Hours)
    } else {
        None
    }
}

/// A character of the number of a duration: an ASCII digit, `.`, `+`, `-`.
pub open spec fn is_number_char(c: char) -> bool {
    crate::text::is_digit(c) || c == '.' || c == '+' || c == '-'
}

/// The length of the number at the start of `s`.
pub open spec fn number_len(s: Seq<char>) -> nat
    decreases s.len(),
{
    if s.len() == 0 || !is_number_char(s[0]) {
        0
    } else {
        1 + number_len(s.skip(1))
    }
}

/// A duration split into the text of its number and its unit (`Err` with
/// the unit's text where it names no unit).
pub open spec fn duration_parts_spec(s: Seq<char>) -> Result<(Seq<char>, Result<DurationUnit, Seq<char>>), Seq<char>> {
    let t = crate::text::trim(s);
    if t.len() == 0 {
        Err("duration cannot be empty"@)
    } else {
        let n = number_len(t);
        let unit = crate::text::trim(t.skip(n as int));
        Ok((t.take(n as int), match duration_unit_of(unit) {
            Some(u) => Ok(u),
            None => Err(unit),
        }))
    }
}

fn text_is(cs: &Vec<char>, lit: &str) -> (r: bool)
    ensures
        r == (cs@ == lit@),
{
    let l = chars_of(lit);
    crate::text::chars_eq(cs.as_slice(), l.as_slice())
}

/// The unit named by `cs` (see `duration_unit_of`).
fn duration_unit(cs: &Vec<char>) -> (r: Option<DurationUnit>)
    ensures
        r == duration_unit_of(cs@),
{
    if text_is(cs, "") || text_is(cs, "s") || text_is(cs, "sec") || text_is(cs, "secs") || text_is(cs, "second")
        || text_is(cs, "seconds") {
        Some(DurationUnit::Seconds)
    } else if text_is(cs, "ms") || text_is(cs, "msec") || text_is(cs, "milli") || text_is(cs, "millisecond")
        || text_is(cs, "milliseconds") {
        Some(DurationUnit::Milliseconds)
    } else if text_is(cs, "us") || text_is(cs, "µs") || text_is(cs, "usec") || text_is(cs, "micro")
        || text_is(cs, "microsecond") || text_is(cs, "microseconds") {
        Some(DurationUnit::Microseconds)
    } else if text_is(cs, "ns") || text_is(cs, "nsec") || text_is(cs, "nanosecond") || text_is(cs, "nanoseconds") {
        Some(DurationUnit::Nanoseconds)
    } else if text_is(cs, "m") || text_is(cs, "min") || text_is(cs, "mins") || text_is(cs, "minute")
        || text_is(cs, "minutes") {
        Some(DurationUnit::Minutes)
    } else if text_is(cs, "h") || text_is(cs, "hr") || text_is(cs, "hrs") || text_is(cs, "hour")
        || text_is(cs, "hours") {
        Some(DurationUnit::Hours)
    } else {
        None
    }
}

/// Split a human duration such as `1.5s` into the text of its number and
/// its unit, after trimming white space; the number (digits, `.`, `+`, `-`)
/// is parsed by the caller.
pub fn duration_parts(s: &str) -> (r: Result<(String, Result<DurationUnit, String>), String>)
    ensures
        match duration_parts_spec(s@) {
            Err(m) => r matches Err(e) && e@ == m,
            Ok((num, unit)) => r matches Ok((n, u)) && n@ == num && match unit {
                Ok(du) => u == Ok::<DurationUnit, String>(du),
                Err(text) => u matches Err(t) && t@ == text,
            },
        },
{
    let cs = chars_of(s);
    let t = crate::text::trim_chars(cs.as_slice());
    if t.len() == 0 {
        let mut m = String::new();
        push_str(&mut m, "duration cannot be empty");
        return Err(m);
    }
    let mut n: usize = 0;
    assert(t@.skip(0) =~= t@);
    while n < t.len() && (crate::text::is_digit_exec(t[n]) || t[n] == '.' || t[n] == '+' || t[n] == '-')
        invariant
            n <= t@.len(),
            number_len(t@) == n + number_len(t@.skip(n as int)),
        decreases t.len() - n,
    {
        assert(t@.skip(n as int).skip(1) =~= t@.skip(n + 1));
        n += 1;
    }
    assert(number_len(t@.skip(n as int)) == 0);
    let num_chars = crate::text::chars_range(t.as_slice(), 0, n);
    let rest = crate::text::chars_range(t.as_slice(), n, t.len());
    assert(rest@ =~= t@.skip(n as int));
    assert(num_chars@ =~= t@.take(n as int));
    let unit_chars = crate::text::trim_chars(rest.as_slice());
    let num = string_from_chars(num_chars.as_slice());
    let unit = match duration_unit(&unit_chars) {
        Some(u) => Ok(u),
        None => Err(string_from_chars(unit_chars.as_slice())),
    };
    Ok((num, unit))
}

} // verus!
