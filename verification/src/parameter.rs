//! Parameter values (`-P`, `-L`, `-F`, `--parameter-sample`), the
//! comma-separated value lists of `-L` and the integer ranges of `-P`.
use vstd::prelude::*;
use rust_decimal::Decimal;
use rust_decimal::prelude::ToPrimitive;
use crate::text::{parse_i32, parse_i32_spec, chars_of, decimal, push_char, push_decimal, signed_decimal, string_from_chars, views};

verus! {

/// A number produced by a parameter scan.
#[derive(Debug, Clone, PartialEq, Eq)]
pub enum Number {
    Int(i32),
    /// A decimal number, held in its display form (e.g. `0.33`)
    Decimal(String),
}

/// The value of a parameter.
#[derive(Debug, Clone, PartialEq, Eq)]
pub enum ParameterValue {
    Text(String),
    Numeric(Number),
}

/// How a parameter value is written into a command line.
pub open spec fn value_text(v: ParameterValue) -> Seq<char> {
    match v {
        ParameterValue::Text(s) => s@,
        ParameterValue::Numeric(Number::Int(i)) => signed_decimal(i as int),
        ParameterValue::Numeric(Number::Decimal(s)) => s@,
    }
}

/// Appends the decimal notation of a signed integer.
pub fn push_signed_decimal(s: &mut String, n: i32)
    ensures
        final(s)@ == old(s)@ + signed_decimal(n as int),
{
    if n < 0 {
        let ghost before = s@;
        push_char(s, '-');
        let m: u64 = (-(n as i64)) as u64;
        push_decimal(s, m);
        assert(s@ =~= before + (seq!['-'] + decimal((-n) as nat)));
    } else {
        push_decimal(s, n as u64);
    }
}

impl ParameterValue {
    /// A copy of this value.
    pub fn copy_value(&self) -> (r: Self)
        ensures
            r == *self,
    {
        match self {
            ParameterValue::Text(t) => ParameterValue::Text(t.clone()),
            ParameterValue::Numeric(Number::Int(i)) => ParameterValue::Numeric(Number::Int(*i)),
            ParameterValue::Numeric(Number::Decimal(t)) => ParameterValue::Numeric(Number::Decimal(t.clone())),
        }
    }

    /// The value as it is substituted into a command (`Display`).
    pub fn to_text(&self) -> (s: String)
        ensures
            s@ == value_text(*self),
    {
        match self {
            ParameterValue::Text(t) => t.clone(),
            ParameterValue::Numeric(Number::Int(i)) => {
                let mut s = String::new();
                push_signed_decimal(&mut s, *i);
                assert(s@ =~= signed_decimal(*i as int));
                s
            },
            ParameterValue::Numeric(Number::Decimal(t)) => t.clone(),
        }
    }
}

/// The values of a `-L` list: split at commas, where `\,` is a literal
/// comma and `\\` a literal backslash (any other backslash is kept). `buf`
/// is the value read so far.
pub open spec fn tokens_from(s: Seq<char>, buf: Seq<char>) -> Seq<Seq<char>>
    decreases s.len(),
{
    if s.len() == 0 {
        seq![buf]
    } else if s[0] == '\\' {
        if s.len() >= 2 && (s[1] == ',' || s[1] == '\\') {
            tokens_from(s.skip(2), buf.push(s[1]))
        } else if s.len() >= 2 {
            tokens_from(s.skip(2), buf.push('\\').push(s[1]))
        } else {
            tokens_from(s.skip(1), buf.push('\\'))
        }
    } else if s[0] == ',' {
        seq![buf] + tokens_from(s.skip(1), Seq::empty())
    } else {
        tokens_from(s.skip(1), buf.push(s[0]))
    }
}

/// The values of a comma-separated list.
pub open spec fn tokens(s: Seq<char>) -> Seq<Seq<char>> {
    tokens_from(s, Seq::empty())
}

pub proof fn lemma_tokens_nonempty(s: Seq<char>, buf: Seq<char>)
    ensures
        tokens_from(s, buf).len() >= 1,
    decreases s.len(),
{
    if s.len() > 0 {
        if s[0] == '\\' {
            if s.len() >= 2 {
                lemma_tokens_nonempty(s.skip(2), if s[1] == ',' || s[1] == '\\' { buf.push(s[1]) } else { buf.push('\\').push(s[1]) });
            } else {
                lemma_tokens_nonempty(s.skip(1), buf.push('\\'));
            }
        } else if s[0] == ',' {
            lemma_tokens_nonempty(s.skip(1), Seq::empty());
        } else {
            lemma_tokens_nonempty(s.skip(1), buf.push(s[0]));
        }
    }
}

/// Split a parameter list such as `a,b,c` into its values (`\,` escapes a
/// comma). The result always holds at least one value.
pub fn tokenize(values: &str) -> (r: Vec<String>)
    ensures
        views(r@) == tokens(values@),
        r@.len() >= 1,
{
    let cs = chars_of(values);
    let mut out: Vec<String> = Vec::new();
    let mut buf: Vec<char> = Vec::new();
    let mut i: usize = 0;
    assert(cs@.skip(0) =~= cs@);
    assert(views(out@) =~= Seq::<Seq<char>>::empty());
    while i < cs.len()
        invariant
            i <= cs@.len(),
            cs@ == values@,
            views(out@) + tokens_from(cs@.skip(i as int), buf@) == tokens(values@),
        decreases cs.len() - i,
    {
        let ghost rest = cs@.skip(i as int);
        let c = cs[i];
        if c == '\\' {
            if i + 1 < cs.len() {
                let d = cs[i + 1];
                assert(rest.skip(2) =~= cs@.skip(i + 2));
                if d == ',' || d == '\\' {
                    buf.push(d);
                } else {
                    buf.push('\\');
                    buf.push(d);
                }
                i += 2;
            } else {
                assert(rest.skip(1) =~= cs@.skip(i + 1));
                buf.push('\\');
                i += 1;
            }
        } else if c == ',' {
            assert(rest.skip(1) =~= cs@.skip(i + 1));
            let ghost old_out = views(out@);
            let token = string_from_chars(buf.as_slice());
            out.push(token);
            assert(views(out@) =~= old_out.push(buf@));
            assert(old_out.push(buf@) + tokens_from(cs@.skip(i + 1), Seq::empty()) =~= old_out + (seq![buf@] + tokens_from(cs@.skip(i + 1), Seq::empty())));
            buf = Vec::new();
            i += 1;
        } else {
            assert(rest.skip(1) =~= cs@.skip(i + 1));
            buf.push(c);
            i += 1;
        }
    }
    assert(cs@.skip(i as int) =~= Seq::<char>::empty());
    let ghost old_out = views(out@);
    let token = string_from_chars(buf.as_slice());
    out.push(token);
    assert(views(out@) =~= old_out.push(buf@));
    assert(views(out@) =~= old_out + seq![buf@]);
    proof { lemma_tokens_nonempty(values@, Seq::empty()); }
    out
}

} // verus!

verus! {

/// The largest number of values that one parameter scan may produce.
pub const MAX_PARAMETERS: usize = 100_000;

/// Errors of `-P`/`--parameter-scan` and of `--command-name` counts.
#[derive(Debug, Clone, PartialEq, Eq)]
pub enum ParameterScanError {
    /// A bound or the step is not a number (the parser's message)
    InvalidNumber(String),
    /// The maximum is smaller than the minimum
    EmptyRange,
    /// More than `MAX_PARAMETERS` values (or a negative step)
    TooLarge,
    /// The step is zero
    ZeroStep,
    /// Decimal bounds need an explicit step
    StepRequired,
    /// `--command-name` was given this many times, for this many benchmarks
    UnexpectedCommandNameCount(usize, usize),
}

/// The message of a parameter scan error.
pub open spec fn scan_error_text(e: ParameterScanError) -> Seq<char> {
    match e {
        ParameterScanError::InvalidNumber(m) => "Error while parsing a parameter scan bound: "@ + m@,
        ParameterScanError::EmptyRange => "Empty parameter range"@,
        ParameterScanError::TooLarge => "Parameter range is too large"@,
        ParameterScanError::ZeroStep => "Zero is not a valid parameter step"@,
        ParameterScanError::StepRequired => "A step size is required when the range bounds are floating point numbers. The step size can be specified with the '-D/--parameter-step-size <DELTA>' parameter"@,
        ParameterScanError::UnexpectedCommandNameCount(given, benchmarks) => "'--command-name' has been specified "@
            + decimal(given as nat) + " times. It has to appear exactly once, or exactly "@ + decimal(benchmarks as nat)
            + " times (number of benchmarks)"@,
    }
}

impl ParameterScanError {
    /// The message shown to the user.
    pub fn message(&self) -> (s: String)
        ensures
            s@ == scan_error_text(*self),
    {
        let mut s = String::new();
        match self {
            ParameterScanError::InvalidNumber(m) => {
                crate::text::push_str(&mut s, "Error while parsing a parameter scan bound: ");
                crate::text::push_str(&mut s, m.as_str());
            },
            ParameterScanError::EmptyRange => {
                crate::text::push_str(&mut s, "Empty parameter range");
            },
            ParameterScanError::TooLarge => {
                crate::text::push_str(&mut s, "Parameter range is too large");
            },
            ParameterScanError::ZeroStep => {
                crate::text::push_str(&mut s, "Zero is not a valid parameter step");
            },
            ParameterScanError::StepRequired => {
                crate::text::push_str(&mut s, "A step size is required when the range bounds are floating point numbers. The step size can be specified with the '-D/--parameter-step-size <DELTA>' parameter");
            },
            ParameterScanError::UnexpectedCommandNameCount(given, benchmarks) => {
                crate::text::push_str(&mut s, "'--command-name' has been specified ");
                crate::text::push_decimal(&mut s, *given as u64);
                crate::text::push_str(&mut s, " times. It has to appear exactly once, or exactly ");
                crate::text::push_decimal(&mut s, *benchmarks as u64);
                crate::text::push_str(&mut s, " times (number of benchmarks)");
            },
        }
        s
    }
}

/// The integer scan `start, start + step, …` up to `end`: its `k`-th value is
/// `start + k * step`, and it ends with the last value that is at most `end`.
pub open spec fn is_int_scan(values: Seq<i32>, start: int, end: int, step: int) -> bool {
    &&& values.len() >= 1
    &&& forall|k: int| 0 <= k < values.len() ==> #[trigger] values[k] == start + k * step
    &&& start + (values.len() - 1) * step <= end
    &&& start + values.len() * step > end
}

/// The number of values a scan is estimated to produce:
/// `(end - start + 1) / step`, which must fit in `MAX_PARAMETERS`.
pub open spec fn int_scan_fits(start: int, end: int, step: int) -> bool {
    step > 0 && (end - start + 1) / step <= MAX_PARAMETERS
}

/// A scan whose estimate fits has at most one value more than the limit.
pub proof fn lemma_int_scan_len(values: Seq<i32>, start: int, end: int, step: int)
    requires
        is_int_scan(values, start, end, step),
        int_scan_fits(start, end, step),
    ensures
        values.len() <= MAX_PARAMETERS + 1,
{
    let len = values.len() as int;
    assert(len - 1 <= (end - start) / step) by (nonlinear_arith)
        requires (len - 1) * step <= end - start, step > 0, len >= 1;
    vstd::arithmetic::div_mod::lemma_div_is_ordered(end - start, end - start + 1, step);
}

/// `RangeStep` over integers: all values from `start` to `end` (inclusive)
/// with the given step.
pub fn int_range(start: i32, end: i32, step: i32) -> (r: Result<Vec<i32>, ParameterScanError>)
    ensures
        (r == Err::<Vec<i32>, ParameterScanError>(ParameterScanError::EmptyRange)) <==> end < start,
        (r == Err::<Vec<i32>, ParameterScanError>(ParameterScanError::ZeroStep)) <==> (start <= end && step == 0),
        (r == Err::<Vec<i32>, ParameterScanError>(ParameterScanError::TooLarge)) <==> (start <= end && step != 0
            && !int_scan_fits(start as int, end as int, step as int)),
        r is Ok <==> (start <= end && int_scan_fits(start as int, end as int, step as int)),
        r matches Ok(v) ==> is_int_scan(v@, start as int, end as int, step as int),
{
    if end < start {
        return Err(ParameterScanError::EmptyRange);
    }
    if step == 0 {
        return Err(ParameterScanError::ZeroStep);
    }
    if step < 0 || (end as i64 - start as i64 + 1) / (step as i64) > MAX_PARAMETERS as i64 {
        return Err(ParameterScanError::TooLarge);
    }
    let mut values: Vec<i32> = Vec::new();
    let mut v: i64 = start as i64;
    assert(values@.len() * step == 0) by (nonlinear_arith)
        requires
            values@.len() == 0,
    ;
    while v <= end as i64
        invariant
            start <= end,
            step > 0,
            v == start + values@.len() * step,
            v <= end + step,
            values@.len() > 0 ==> start + (values@.len() - 1) * step <= end,
            forall|k: int| 0 <= k < values@.len() ==> #[trigger] values@[k] == start + k * step,
        decreases (end as int) + (step as int) - (v as int),
    {
        values.push(v as i32);
        proof {
            let n = values@.len() as int;
            let st = step as int;
            assert((n - 1) * st + st == n * st) by (nonlinear_arith);
        }
        let ghost old_v = v;
        v = v + step as i64;
        assert(v > old_v);
    }
    Ok(values)
}

} // verus!

verus! {

/// A decimal number as `rust_decimal::Decimal` holds it: its mantissa, its
/// scale (the value is `mantissa / 10^scale`) and its sign flag (which a
/// zero may carry too).
pub type DecimalParts = (i128, u32, bool);

/// The largest mantissa of a `Decimal` (96 bits).
pub const DECIMAL_MAX_MANTISSA: i128 = 0xFFFF_FFFF_FFFF_FFFF_FFFF_FFFF;

/// The parts of an actual `Decimal`: a scale of at most 28, a mantissa of
/// at most 96 bits, and a sign flag that agrees with a non-zero mantissa.
pub open spec fn valid_decimal(p: DecimalParts) -> bool {
    &&& p.1 <= 28
    &&& -DECIMAL_MAX_MANTISSA <= p.0 <= DECIMAL_MAX_MANTISSA
    &&& p.0 < 0 ==> p.2
    &&& p.0 > 0 ==> !p.2
}

/// Whether the value of `a` is below that of `b`.
pub open spec fn decimal_less(a: DecimalParts, b: DecimalParts) -> bool {
    a.0 * crate::util::units::pow10(b.1 as nat) < b.0 * crate::util::units::pow10(a.1 as nat)
}

/// `ToPrimitive::to_usize` of a `Decimal`: the integer part (truncated),
/// none for a number with the sign flag or one that does not fit.
pub open spec fn decimal_usize(a: DecimalParts) -> Option<usize> {
    let q = (if a.0 < 0 { -(a.0 as int) } else { a.0 as int }) as nat / crate::util::units::pow10(a.1 as nat);
    if a.2 || q > usize::MAX {
        None
    } else {
        Some(q as usize)
    }
}

/// `Decimal::from_str`: the parts of the number that the text denotes, or
/// none where the crate's grammar rejects the text.
pub uninterp spec fn decimal_parse(s: Seq<char>) -> Option<DecimalParts>;

/// `Decimal::checked_add` (none on overflow).
pub uninterp spec fn decimal_sum(a: DecimalParts, b: DecimalParts) -> Option<DecimalParts>;

/// `Decimal::checked_sub` (none on overflow).
pub uninterp spec fn decimal_difference(a: DecimalParts, b: DecimalParts) -> Option<DecimalParts>;

/// `Decimal::checked_div` (none on overflow or a zero divisor).
pub uninterp spec fn decimal_quotient(a: DecimalParts, b: DecimalParts) -> Option<DecimalParts>;

/// The display form (`to_string`) of a `Decimal`: a `-` where the sign
/// flag is set, the digits of the mantissa with `scale` of them after the
/// point (padded with zeros, and a `0` before the point where there is no
/// whole part); `0` for a zero without decimal places.
pub open spec fn decimal_text(a: DecimalParts) -> Seq<char> {
    let m: nat = (if a.0 < 0 { -(a.0 as int) } else { a.0 as int }) as nat;
    let digits = if m == 0 { Seq::<char>::empty() } else { crate::text::decimal(m) };
    let padded = crate::text::pad_left(digits, a.1 as nat, '0');
    let whole = padded.take(padded.len() - a.1);
    let body = if a.1 == 0 {
        if m == 0 { seq!['0'] } else { digits }
    } else {
        (if whole.len() == 0 { seq!['0'] } else { whole }) + seq!['.'] + padded.skip(padded.len() - a.1)
    };
    (if a.2 { seq!['-'] } else { Seq::<char>::empty() }) + body
}

/// Whether `Decimal::from_str` accepts the text.
pub open spec fn decimal_parses(s: Seq<char>) -> bool {
    decimal_parse(s) is Some
}

/// Calls `Decimal::from_str` of `rust_decimal` and takes the number's
/// parts (`mantissa`, `scale`, `is_sign_negative`); the parser's error
/// message is returned as text. Claimed: the parts are `decimal_parse` of
/// the text (a function of the text alone), and those of a `Decimal` are
/// valid (the crate's limits of 28 decimal places and 96 bits). The message
/// is not stated.
#[verifier::external_body]
fn decimal_from_str(s: &str) -> (r: Result<DecimalParts, String>)
    ensures
        r is Ok <==> decimal_parse(s@) is Some,
        r matches Ok(p) ==> decimal_parse(s@) == Some(p) && valid_decimal(p),
{
    match <Decimal as std::str::FromStr>::from_str(s) {
        Ok(d) => Ok((d.mantissa(), d.scale(), d.is_sign_negative())),
        Err(e) => Err(e.to_string()),
    }
}

/// Calls `Decimal::is_zero` on the number with these parts. Claimed: it
/// is zero exactly when its mantissa is (the crate's source tests the three
/// words of the mantissa).
#[verifier::external_body]
fn decimal_is_zero(a: DecimalParts) -> (r: bool)
    requires
        valid_decimal(a),
    ensures
        r == (a.0 == 0),
{
    let mut d = Decimal::from_i128_with_scale(a.0, a.1);
    d.set_sign_negative(a.2);
    d.is_zero()
}

/// Calls `<Decimal as PartialOrd>::lt` on the numbers with these parts.
/// Claimed: it compares their values (`mantissa / 10^scale`), as the
/// crate's `cmp` does.
#[verifier::external_body]
fn decimal_lt(a: DecimalParts, b: DecimalParts) -> (r: bool)
    requires
        valid_decimal(a),
        valid_decimal(b),
    ensures
        r == decimal_less(a, b),
{
    let mut x = Decimal::from_i128_with_scale(a.0, a.1);
    x.set_sign_negative(a.2);
    let mut y = Decimal::from_i128_with_scale(b.0, b.1);
    y.set_sign_negative(b.2);
    x < y
}

/// Calls `Decimal::checked_add`. Claimed: the result is `decimal_sum` of
/// the parts (a function of them alone), and valid.
#[verifier::external_body]
fn decimal_checked_add(a: DecimalParts, b: DecimalParts) -> (r: Option<DecimalParts>)
    requires
        valid_decimal(a),
        valid_decimal(b),
    ensures
        r == decimal_sum(a, b),
        r matches Some(p) ==> valid_decimal(p),
{
    let mut x = Decimal::from_i128_with_scale(a.0, a.1);
    x.set_sign_negative(a.2);
    let mut y = Decimal::from_i128_with_scale(b.0, b.1);
    y.set_sign_negative(b.2);
    x.checked_add(y).map(|d| (d.mantissa(), d.scale(), d.is_sign_negative()))
}

/// Calls `Decimal::checked_sub`. Claimed: the result is
/// `decimal_difference` of the parts (a function of them alone), and valid.
#[verifier::external_body]
fn decimal_checked_sub(a: DecimalParts, b: DecimalParts) -> (r: Option<DecimalParts>)
    requires
        valid_decimal(a),
        valid_decimal(b),
    ensures
        r == decimal_difference(a, b),
        r matches Some(p) ==> valid_decimal(p),
{
    let mut x = Decimal::from_i128_with_scale(a.0, a.1);
    x.set_sign_negative(a.2);
    let mut y = Decimal::from_i128_with_scale(b.0, b.1);
    y.set_sign_negative(b.2);
    x.checked_sub(y).map(|d| (d.mantissa(), d.scale(), d.is_sign_negative()))
}

/// Calls `Decimal::checked_div`. Claimed: the result is `decimal_quotient`
/// of the parts (a function of them alone), and valid.
#[verifier::external_body]
fn decimal_checked_div(a: DecimalParts, b: DecimalParts) -> (r: Option<DecimalParts>)
    requires
        valid_decimal(a),
        valid_decimal(b),
    ensures
        r == decimal_quotient(a, b),
        r matches Some(p) ==> valid_decimal(p),
{
    let mut x = Decimal::from_i128_with_scale(a.0, a.1);
    x.set_sign_negative(a.2);
    let mut y = Decimal::from_i128_with_scale(b.0, b.1);
    y.set_sign_negative(b.2);
    x.checked_div(y).map(|d| (d.mantissa(), d.scale(), d.is_sign_negative()))
}

/// Calls `ToPrimitive::to_usize` on the number with these parts. Claimed:
/// `decimal_usize` (the crate's `to_u64` is none for the sign flag and
/// truncates the fraction; `to_usize` then needs the value to fit).
#[verifier::external_body]
fn decimal_to_usize(a: DecimalParts) -> (r: Option<usize>)
    requires
        valid_decimal(a),
    ensures
        r == decimal_usize(a),
{
    let mut d = Decimal::from_i128_with_scale(a.0, a.1);
    d.set_sign_negative(a.2);
    d.to_usize()
}

/// Calls `Decimal`'s `Display` (`to_string`) on the number with these
/// parts. Claimed: the text is `decimal_text` of the parts (the crate's
/// `to_str_internal` without a precision, and `pad_integral` for the sign).
#[verifier::external_body]
fn decimal_to_text(a: DecimalParts) -> (s: String)
    requires
        valid_decimal(a),
    ensures
        s@ == decimal_text(a),
{
    let mut d = Decimal::from_i128_with_scale(a.0, a.1);
    d.set_sign_negative(a.2);
    d.to_string()
}

/// The number of steps of a decimal scan, `(end - start + 1) / step`
/// truncated, where each operation succeeds.
pub open spec fn decimal_scan_size(start: DecimalParts, end: DecimalParts, step: DecimalParts) -> Option<usize> {
    match decimal_difference(end, start) {
        Some(d) => match decimal_sum(d, (1, 0, false)) {
            Some(e) => match decimal_quotient(e, step) {
                Some(q) => if valid_decimal(q) { decimal_usize(q) } else { None },
                None => None,
            },
            None => None,
        },
        None => None,
    }
}

/// The texts of at most `fuel` values `state`, `state + step`, … that are
/// at most `end`, stopping where a sum overflows.
pub open spec fn decimal_scan(state: DecimalParts, end: DecimalParts, step: DecimalParts, fuel: nat) -> Seq<Seq<char>>
    decreases fuel,
{
    if fuel == 0 || decimal_less(end, state) {
        Seq::empty()
    } else {
        seq![decimal_text(state)] + match decimal_sum(state, step) {
            Some(next) => decimal_scan(next, end, step, (fuel - 1) as nat),
            None => Seq::empty(),
        }
    }
}

/// A decimal scan from `start` to `end` by `step`: the texts of its values,
/// or why there are none.
pub open spec fn decimal_range_spec(start: DecimalParts, end: DecimalParts, step: DecimalParts) -> Result<Seq<Seq<char>>, ParameterScanError> {
    if decimal_less(end, start) {
        Err(ParameterScanError::EmptyRange)
    } else if step.0 == 0 {
        Err(ParameterScanError::ZeroStep)
    } else {
        match decimal_scan_size(start, end, step) {
            Some(n) => if n <= MAX_PARAMETERS {
                Ok(decimal_scan(start, end, step, (n + 1) as nat))
            } else {
                Err(ParameterScanError::TooLarge)
            },
            None => Err(ParameterScanError::TooLarge),
        }
    }
}

/// The `k`-th value of a scan from `start` by `step`: `start` with `step`
/// added `k` times (none once a sum overflows).
pub open spec fn decimal_iterate(start: DecimalParts, step: DecimalParts, k: nat) -> Option<DecimalParts>
    decreases k,
{
    if k == 0 {
        Some(start)
    } else {
        match decimal_iterate(start, step, (k - 1) as nat) {
            Some(p) => decimal_sum(p, step),
            None => None,
        }
    }
}

/// A scan from the `j`-th value goes on value by value, each at most `end`,
/// and ends only where the next value exceeds `end`, a sum overflows or the
/// `fuel` is spent.
proof fn lemma_decimal_scan_iterates(
    start: DecimalParts,
    end: DecimalParts,
    step: DecimalParts,
    j: nat,
    state: DecimalParts,
    fuel: nat,
)
    requires
        decimal_iterate(start, step, j) == Some(state),
    ensures
        ({
            let t = decimal_scan(state, end, step, fuel);
            &&& t.len() <= fuel
            &&& forall|k: int| 0 <= k < t.len() ==> (#[trigger] decimal_iterate(start, step, (j + k) as nat) matches Some(v)
                && t[k] == decimal_text(v) && !decimal_less(end, v))
            &&& t.len() == fuel || match decimal_iterate(start, step, j + t.len()) {
                Some(v) => decimal_less(end, v),
                None => true,
            }
        }),
    decreases fuel,
{
    let t = decimal_scan(state, end, step, fuel);
    if fuel == 0 || decimal_less(end, state) {
        assert(t.len() == 0);
    } else {
        match decimal_sum(state, step) {
            Some(next) => {
                assert(decimal_iterate(start, step, j + 1) == Some(next));
                lemma_decimal_scan_iterates(start, end, step, j + 1, next, (fuel - 1) as nat);
                let r = decimal_scan(next, end, step, (fuel - 1) as nat);
                assert(t == seq![decimal_text(state)] + r);
                assert forall|k: int| 0 <= k < t.len() implies (#[trigger] decimal_iterate(start, step, (j + k) as nat) matches Some(v)
                    && t[k] == decimal_text(v) && !decimal_less(end, v)) by {
                    if k > 0 {
                        assert(t[k] == r[k - 1]);
                        assert((j + 1 + (k - 1)) as nat == (j + k) as nat);
                    }
                }
                assert(j + 1 + r.len() == j + t.len());
            },
            None => {
                assert(t =~= seq![decimal_text(state)]);
                assert(decimal_iterate(start, step, j + 1) is None);
                assert forall|k: int| 0 <= k < t.len() implies (#[trigger] decimal_iterate(start, step, (j + k) as nat) matches Some(v)
                    && t[k] == decimal_text(v) && !decimal_less(end, v)) by {
                    assert(k == 0);
                }
            },
        }
    }
}

proof fn lemma_usize_of_nat(w: nat)
    requires
        w <= usize::MAX,
    ensures
        (w as usize) as int == w as int,
{
    let u: usize = w as usize;
    assert(u == w);
}

/// A decimal scan is complete: its `k`-th value is `start` with `step` added
/// `k` times, every value is at most `end`, the first is `start`, and the
/// scan ends only where the next value would exceed `end` or overflow, or
/// where it reached the estimated number of values `size + 1` (its bound),
/// `size` being the whole part of `(end - start + 1) / step` as the decimal
/// operations compute it.
pub proof fn lemma_decimal_scan_is_complete(start: DecimalParts, end: DecimalParts, step: DecimalParts)
    ensures
        decimal_range_spec(start, end, step) matches Ok(texts) ==> {
            &&& decimal_scan_size(start, end, step) matches Some(n)
            &&& decimal_difference(end, start) matches Some(d)
            &&& decimal_sum(d, (1, 0, false)) matches Some(e)
            &&& decimal_quotient(e, step) matches Some(q)
            &&& !q.2 && q.0 >= 0
            &&& decimal_scan_size(start, end, step)->0 as int == q.0 as int / crate::util::units::pow10(q.1 as nat) as int
            &&& decimal_scan_size(start, end, step)->0 <= MAX_PARAMETERS
            &&& 1 <= texts.len() <= decimal_scan_size(start, end, step)->0 + 1
            &&& texts[0] == decimal_text(start)
            &&& forall|k: int| 0 <= k < texts.len() ==> (#[trigger] decimal_iterate(start, step, k as nat) matches Some(v)
                && texts[k] == decimal_text(v) && !decimal_less(end, v))
            &&& texts.len() == decimal_scan_size(start, end, step)->0 + 1 || match decimal_iterate(start, step, texts.len()) {
                Some(v) => decimal_less(end, v),
                None => true,
            }
        },
{
    if let Ok(texts) = decimal_range_spec(start, end, step) {
        let n = decimal_scan_size(start, end, step)->0;
        let d = decimal_difference(end, start)->0;
        let e = decimal_sum(d, (1, 0, false))->0;
        let q = decimal_quotient(e, step)->0;
        assert(valid_decimal(q) && decimal_usize(q) == Some(n));
        assert(!q.2 && q.0 >= 0);
        let m: nat = (if q.0 < 0 { -(q.0 as int) } else { q.0 as int }) as nat;
        assert(m == q.0 as int);
        let w: nat = m / crate::util::units::pow10(q.1 as nat);
        assert(w <= usize::MAX && n == w as usize);
        assert(n as int == w as int) by {
            lemma_usize_of_nat(w);
        }
        assert(w as int == q.0 as int / crate::util::units::pow10(q.1 as nat) as int);
        assert(decimal_iterate(start, step, 0) == Some(start));
        lemma_decimal_scan_iterates(start, end, step, 0, start, (n + 1) as nat);
        assert(texts == decimal_scan(start, end, step, (n + 1) as nat));
        assert(texts.len() >= 1);
        assert forall|k: int| 0 <= k < texts.len() implies (#[trigger] decimal_iterate(start, step, k as nat) matches Some(v)
            && texts[k] == decimal_text(v) && !decimal_less(end, v)) by {
            assert((0 + k) as nat == k as nat);
        }
    }
}

/// The values are decimal numbers with these texts.
pub open spec fn decimal_values(v: Seq<ParameterValue>, texts: Seq<Seq<char>>) -> bool {
    &&& v.len() == texts.len()
    &&& forall|k: int| 0 <= k < v.len() ==> (#[trigger] v[k] matches ParameterValue::Numeric(Number::Decimal(t)) && t@ == texts[k])
}

/// A decimal scan has at most `fuel` values.
proof fn lemma_decimal_scan_len(state: DecimalParts, end: DecimalParts, step: DecimalParts, fuel: nat)
    ensures
        decimal_scan(state, end, step, fuel).len() <= fuel,
    decreases fuel,
{
    if fuel > 0 && !decimal_less(end, state) {
        if let Some(next) = decimal_sum(state, step) {
            lemma_decimal_scan_len(next, end, step, (fuel - 1) as nat);
        }
    }
}

/// `RangeStep` over decimals: `start`, `start + step`, … while the value is
/// at most `end`, after the same checks as for integers (the estimated
/// number of values `(end - start + 1) / step` must be known and at most
/// `MAX_PARAMETERS`).
fn decimal_range(start: DecimalParts, end: DecimalParts, step: DecimalParts) -> (r: Result<Vec<ParameterValue>, ParameterScanError>)
    requires
        valid_decimal(start),
        valid_decimal(end),
        valid_decimal(step),
    ensures
        match decimal_range_spec(start, end, step) {
            Ok(texts) => r matches Ok(v) && decimal_values(v@, texts),
            Err(e) => r == Err::<Vec<ParameterValue>, ParameterScanError>(e),
        },
        r matches Ok(v) ==> v@.len() <= MAX_PARAMETERS + 1
            && forall|k: int| 0 <= k < v@.len() ==> (#[trigger] v@[k]) is Numeric && v@[k]->Numeric_0 is Decimal,
{
    if decimal_lt(end, start) {
        return Err(ParameterScanError::EmptyRange);
    }
    if decimal_is_zero(step) {
        return Err(ParameterScanError::ZeroStep);
    }
    let size = match decimal_checked_sub(end, start) {
        Some(d) => match decimal_checked_add(d, (1, 0, false)) {
            Some(e) => match decimal_checked_div(e, step) {
                Some(q) => decimal_to_usize(q),
                None => None,
            },
            None => None,
        },
        None => None,
    };
    assert(size == decimal_scan_size(start, end, step));
    let size = match size {
        Some(s) if s <= MAX_PARAMETERS => s,
        _ => return Err(ParameterScanError::TooLarge),
    };
    let ghost all = decimal_scan(start, end, step, (size + 1) as nat);
    proof { lemma_decimal_scan_len(start, end, step, (size + 1) as nat); }
    let mut values: Vec<ParameterValue> = Vec::new();
    let mut state = start;
    let mut count: usize = 0;
    let ghost mut texts: Seq<Seq<char>> = Seq::empty();
    let mut done = false;
    // The scan has at most `size + 1` values for a positive step.
    while !done && count <= size && !decimal_lt(end, state)
        invariant
            count <= size + 1,
            size <= MAX_PARAMETERS,
            valid_decimal(state),
            valid_decimal(end),
            valid_decimal(step),
            all == decimal_scan(start, end, step, (size + 1) as nat),
            decimal_values(values@, texts),
            done ==> texts == all,
            !done ==> texts + decimal_scan(state, end, step, (size + 1 - count) as nat) == all,
            values@.len() == count,
            forall|k: int| 0 <= k < values@.len() ==> (#[trigger] values@[k]) is Numeric && values@[k]->Numeric_0 is Decimal,
        decreases size + 1 - count,
    {
        let ghost rest = decimal_scan(state, end, step, (size + 1 - count) as nat);
        let ghost prev_v = values@;
        let ghost prev_t = texts;
        values.push(ParameterValue::Numeric(Number::Decimal(decimal_to_text(state))));
        proof {
            texts = texts.push(decimal_text(state));
        }
        count += 1;
        match decimal_checked_add(state, step) {
            Some(next) => {
                assert(rest == seq![decimal_text(state)] + decimal_scan(next, end, step, (size + 1 - count) as nat));
                assert(texts + decimal_scan(next, end, step, (size + 1 - count) as nat) =~= all);
                state = next;
            },
            None => {
                assert(rest =~= seq![decimal_text(state)]);
                assert(texts =~= all);
                done = true;
            },
        }
        assert(decimal_values(values@, texts)) by {
            assert forall|k: int| 0 <= k < values@.len() implies (#[trigger] values@[k] matches ParameterValue::Numeric(Number::Decimal(t)) && t@ == texts[k]) by {
                if k < values@.len() - 1 {
                    assert(values@[k] == prev_v[k]);
                    assert(texts[k] == prev_t[k]);
                }
            }
        }
    }
    if !done {
        assert(decimal_scan(state, end, step, (size + 1 - count) as nat) =~= Seq::<Seq<char>>::empty());
        assert(texts =~= all);
    }
    Ok(values)
}

/// The values of an integer scan, as parameter values.
pub open spec fn int_values(ints: Seq<i32>) -> Seq<ParameterValue> {
    ints.map_values(|i: i32| ParameterValue::Numeric(Number::Int(i)))
}

/// The bounds and step of an integer scan, if all three are integers (the
/// step defaults to 1).
pub open spec fn int_scan_bounds(min: Seq<char>, max: Seq<char>, step: Option<Seq<char>>) -> Option<(i32, i32, i32)> {
    let step_text = match step { Some(s) => s, None => "1"@ };
    match (parse_i32_spec(min), parse_i32_spec(max), parse_i32_spec(step_text)) {
        (Some(a), Some(b), Some(d)) => Some((a, b, d)),
        _ => None,
    }
}

/// The view of an optional text.
pub open spec fn str_opt_view(o: Option<&str>) -> Option<Seq<char>> {
    match o {
        Some(s) => Some(s@),
        None => None,
    }
}

/// The values of `-P NAME MIN MAX` (with `-D STEP`): an integer scan when
/// the bounds and the step (default 1) are integers, otherwise a decimal
/// scan, which needs an explicit step.
pub fn parse_parameter_scan(param_min: &str, param_max: &str, step: Option<&str>) -> (r: Result<Vec<ParameterValue>, ParameterScanError>)
    ensures
        int_scan_bounds(param_min@, param_max@, str_opt_view(step)) matches Some((a, b, d)) ==> {
            &&& (r == Err::<Vec<ParameterValue>, ParameterScanError>(ParameterScanError::EmptyRange)) <==> b < a
            &&& (r == Err::<Vec<ParameterValue>, ParameterScanError>(ParameterScanError::ZeroStep)) <==> (a <= b && d == 0)
            &&& (r == Err::<Vec<ParameterValue>, ParameterScanError>(ParameterScanError::TooLarge))
                <==> (a <= b && d != 0 && !int_scan_fits(a as int, b as int, d as int))
            &&& (r is Ok <==> (a <= b && int_scan_fits(a as int, b as int, d as int)))
            &&& (r matches Ok(v) ==> exists|ints: Seq<i32>| is_int_scan(ints, a as int, b as int, d as int)
                && v@ == int_values(ints))
        },
        int_scan_bounds(param_min@, param_max@, str_opt_view(step)) is None ==> {
            &&& (!decimal_parses(param_min@) ==> r matches Err(ParameterScanError::InvalidNumber(_)))
            &&& (decimal_parses(param_min@) && !decimal_parses(param_max@) ==> r matches Err(
                ParameterScanError::InvalidNumber(_),
            ))
            &&& (decimal_parses(param_min@) && decimal_parses(param_max@) && step is None ==> r == Err::<
                Vec<ParameterValue>,
                ParameterScanError,
            >(ParameterScanError::StepRequired))
            &&& (decimal_parses(param_min@) && decimal_parses(param_max@) && (step matches Some(s)
                && !decimal_parses(s@)) ==> r matches Err(ParameterScanError::InvalidNumber(_)))
            &&& (decimal_parses(param_min@) && decimal_parses(param_max@) && step is Some && decimal_parses(
                step.unwrap()@)) ==> match decimal_range_spec(
                decimal_parse(param_min@).unwrap(),
                decimal_parse(param_max@).unwrap(),
                decimal_parse(step.unwrap()@).unwrap(),
            ) {
                Ok(texts) => r matches Ok(v) && decimal_values(v@, texts),
                Err(e) => r == Err::<Vec<ParameterValue>, ParameterScanError>(e),
            }
            &&& (r matches Ok(v) ==> v@.len() <= MAX_PARAMETERS + 1 && forall|k: int| 0 <= k < v@.len()
                ==> (#[trigger] v@[k]) is Numeric && v@[k]->Numeric_0 is Decimal)
        },
{
    proof { reveal_strlit("1"); }
    let step_text = match step { Some(s) => s, None => "1" };
    match (parse_i32(param_min), parse_i32(param_max), parse_i32(step_text)) {
        (Some(a), Some(b), Some(d)) => {
            let ints = match int_range(a, b, d) {
                Ok(v) => v,
                Err(e) => return Err(e),
            };
            let mut values: Vec<ParameterValue> = Vec::new();
            for k in 0..ints.len()
                invariant
                    values@ == int_values(ints@.take(k as int)),
            {
                values.push(ParameterValue::Numeric(Number::Int(ints[k])));
                assert(values@ =~= int_values(ints@.take(k + 1)));
            }
            assert(ints@.take(ints@.len() as int) =~= ints@);
            assert(is_int_scan(ints@, a as int, b as int, d as int));
            assert(values@ == int_values(ints@));
            Ok(values)
        },
        _ => {
            let min = match decimal_from_str(param_min) {
                Ok(d) => d,
                Err(e) => return Err(ParameterScanError::InvalidNumber(e)),
            };
            let max = match decimal_from_str(param_max) {
                Ok(d) => d,
                Err(e) => return Err(ParameterScanError::InvalidNumber(e)),
            };
            let step = match step {
                Some(s) => s,
                None => return Err(ParameterScanError::StepRequired),
            };
            let step = match decimal_from_str(step) {
                Ok(d) => d,
                Err(e) => return Err(ParameterScanError::InvalidNumber(e)),
            };
            decimal_range(min, max, step)
        },
    }
}

} // verus!
