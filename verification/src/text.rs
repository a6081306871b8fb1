//! Character-level text helpers shared by the formatting and parsing code.
use vstd::prelude::*;
use vstd::string::*;

verus! {

// ------------------------------------------------------------------------
// Specifications

/// `p` occurs in `s` starting at index `i`.
pub open spec fn occurs_at(s: Seq<char>, i: int, p: Seq<char>) -> bool {
    0 <= i && i + p.len() <= s.len() && s.subrange(i, i + p.len()) == p
}

/// `p` occurs somewhere in `s` (the empty sequence occurs everywhere).
pub open spec fn contains_seq(s: Seq<char>, p: Seq<char>) -> bool {
    exists|i: int| 0 <= i <= s.len() - p.len() && #[trigger] occurs_at(s, i, p)
}

/// `s` starts with `p`.
pub open spec fn starts_with(s: Seq<char>, p: Seq<char>) -> bool {
    occurs_at(s, 0, p)
}

/// The decimal digit for `d < 10`.
pub open spec fn digit_char(d: nat) -> char {
    if d == 0 { '0' }
    else if d == 1 { '1' }
    else if d == 2 { '2' }
    else if d == 3 { '3' }
    else if d == 4 { '4' }
    else if d == 5 { '5' }
    else if d == 6 { '6' }
    else if d == 7 { '7' }
    else if d == 8 { '8' }
    else { '9' }
}

/// Decimal notation of `n`, without leading zeros ("0" for zero).
pub open spec fn decimal(n: nat) -> Seq<char>
    decreases n,
{
    if n < 10 {
        seq![digit_char(n)]
    } else {
        decimal(n / 10).push(digit_char(n % 10))
    }
}

/// Decimal notation of a signed integer (`-` for negative numbers).
pub open spec fn signed_decimal(n: int) -> Seq<char> {
    if n < 0 {
        seq!['-'] + decimal((-n) as nat)
    } else {
        decimal(n as nat)
    }
}

/// `s`, padded on the left with `c` to at least `width` characters.
pub open spec fn pad_left(s: Seq<char>, width: nat, c: char) -> Seq<char> {
    if s.len() >= width {
        s
    } else {
        Seq::new((width - s.len()) as nat, |_i: int| c) + s
    }
}

/// Decimal notation of `n` with at least `width` digits (leading zeros).
pub open spec fn zero_padded(n: nat, width: nat) -> Seq<char> {
    pad_left(decimal(n), width, '0')
}

/// Concatenation of `parts`, separated by `sep`.
pub open spec fn join(parts: Seq<Seq<char>>, sep: Seq<char>) -> Seq<char>
    decreases parts.len(),
{
    if parts.len() == 0 {
        Seq::empty()
    } else if parts.len() == 1 {
        parts[0]
    } else {
        join(parts.drop_last(), sep) + sep + parts.last()
    }
}

/// Concatenation of `parts` without separator.
pub open spec fn concat(parts: Seq<Seq<char>>) -> Seq<char>
    decreases parts.len(),
{
    if parts.len() == 0 {
        Seq::empty()
    } else {
        concat(parts.drop_last()) + parts.last()
    }
}

/// The views of a sequence of strings.
pub open spec fn views(v: Seq<String>) -> Seq<Seq<char>> {
    v.map_values(|s: String| s@)
}

// ------------------------------------------------------------------------
// Lemmas

pub proof fn lemma_decimal_len(n: nat)
    ensures
        decimal(n).len() >= 1,
        n < 10 ==> decimal(n).len() == 1,
    decreases n,
{
    if n >= 10 {
        lemma_decimal_len(n / 10);
    }
}

// ------------------------------------------------------------------------
// Executable helpers

/// `String::push` of std: appends one character.
#[verifier::external_body]
pub(crate) fn push_char(s: &mut String, c: char)
    ensures
        final(s)@ == old(s)@.push(c),
{
    s.push(c);
}

/// The characters of `s`, in order.
pub fn chars_of(s: &str) -> (v: Vec<char>)
    ensures
        v@ == s@,
{
    let mut v: Vec<char> = Vec::new();
    for c in it: s.chars()
        invariant
            v@ == it.seq().take(it.index() as int),
    {
        v.push(c);
    }
    v
}

/// Appends `t` to `s`.
pub fn push_str(s: &mut String, t: &str)
    ensures
        final(s)@ == old(s)@ + t@,
{
    s.append(t);
}

/// Appends the characters `cs[from..to]` to `s`.
pub fn push_chars(s: &mut String, cs: &[char], from: usize, to: usize)
    requires
        from <= to <= cs@.len(),
    ensures
        final(s)@ == old(s)@ + cs@.subrange(from as int, to as int),
{
    let mut i = from;
    while i < to
        invariant
            from <= i <= to <= cs@.len(),
            s@ == old(s)@ + cs@.subrange(from as int, i as int),
        decreases to - i,
    {
        push_char(s, cs[i]);
        i += 1;
        assert(cs@.subrange(from as int, i as int) =~= cs@.subrange(from as int, i - 1).push(cs@[i - 1]));
    }
}

/// A string holding exactly the characters of `cs`.
pub fn string_from_chars(cs: &[char]) -> (s: String)
    ensures
        s@ == cs@,
{
    let mut s = String::new();
    push_chars(&mut s, cs, 0, cs.len());
    assert(cs@.subrange(0, cs@.len() as int) =~= cs@);
    s
}

/// Whether `p` occurs in `s` at index `i`.
pub fn occurs_at_exec(s: &[char], i: usize, p: &[char]) -> (b: bool)
    ensures
        b == occurs_at(s@, i as int, p@),
{
    if i > s.len() || p.len() > s.len() - i {
        return false;
    }
    let mut k: usize = 0;
    while k < p.len()
        invariant
            i + p@.len() <= s@.len(),
            s@.len() == s.len(),
            k <= p@.len(),
            forall|j: int| 0 <= j < k ==> s@[i + j] == p@[j],
        decreases p.len() - k,
    {
        if s[i + k] != p[k] {
            assert(s@.subrange(i as int, i + p@.len())[k as int] != p@[k as int]);
            return false;
        }
        k += 1;
    }
    assert(s@.subrange(i as int, i + p@.len()) =~= p@);
    true
}

/// Whether `p` occurs anywhere in `s`.
pub fn contains_exec(s: &[char], p: &[char]) -> (b: bool)
    ensures
        b == contains_seq(s@, p@),
{
    if p.len() > s.len() {
        return false;
    }
    let last = s.len() - p.len();
    let mut i: usize = 0;
    loop
        invariant
            p@.len() <= s@.len(),
            last == s@.len() - p@.len(),
            i <= last,
            forall|j: int| 0 <= j < i ==> !occurs_at(s@, j, p@),
        decreases last - i,
    {
        if occurs_at_exec(s, i, p) {
            return true;
        }
        if i == last {
            return false;
        }
        i += 1;
    }
}

/// Decimal digit character for `d < 10`.
pub fn digit_char_exec(d: u64) -> (c: char)
    requires
        d < 10,
    ensures
        c == digit_char(d as nat),
{
    if d == 0 { '0' }
    else if d == 1 { '1' }
    else if d == 2 { '2' }
    else if d == 3 { '3' }
    else if d == 4 { '4' }
    else if d == 5 { '5' }
    else if d == 6 { '6' }
    else if d == 7 { '7' }
    else if d == 8 { '8' }
    else { '9' }
}

/// Appends the decimal notation of `n` to `s`.
pub fn push_decimal(s: &mut String, n: u64)
    ensures
        final(s)@ == old(s)@ + decimal(n as nat),
    decreases n,
{
    if n < 10 {
        push_char(s, digit_char_exec(n));
    } else {
        push_decimal(s, n / 10);
        push_char(s, digit_char_exec(n % 10));
    }
}

/// The decimal notation of `n`.
pub fn decimal_string(n: u64) -> (s: String)
    ensures
        s@ == decimal(n as nat),
{
    let mut s = String::new();
    push_decimal(&mut s, n);
    s
}

/// Appends the decimal notation of a 128-bit `n` to `s`.
pub fn push_decimal_wide(s: &mut String, n: u128)
    ensures
        final(s)@ == old(s)@ + decimal(n as nat),
    decreases n,
{
    if n < 10 {
        push_char(s, digit_char_exec(n as u64));
    } else {
        push_decimal_wide(s, n / 10);
        push_char(s, digit_char_exec((n % 10) as u64));
    }
}

/// Appends the decimal notation of a 128-bit `n` with at least two digits.
pub fn push_two_digits_wide(s: &mut String, n: u128)
    ensures
        final(s)@ == old(s)@ + zero_padded(n as nat, 2),
{
    let ghost start = s@;
    if n < 10 {
        push_char(s, '0');
        push_char(s, digit_char_exec(n as u64));
        assert(decimal(n as nat) == seq![digit_char(n as nat)]);
        assert(Seq::new(1nat, |_i: int| '0') + decimal(n as nat) =~= seq!['0', digit_char(n as nat)]);
        assert(s@ =~= start + zero_padded(n as nat, 2));
    } else {
        push_decimal_wide(s, n);
        assert(decimal(n as nat).len() >= 2) by {
            lemma_decimal_len((n / 10) as nat);
        }
    }
}

/// Appends the decimal notation of `n` with at least `width` digits.
pub fn push_zero_padded(s: &mut String, n: u64, width: usize)
    ensures
        final(s)@ == old(s)@ + zero_padded(n as nat, width as nat),
{
    let digits = decimal_string(n);
    let d = chars_of(digits.as_str());
    let mut k = d.len();
    let ghost start = s@;
    while k < width
        invariant
            d.len() <= k <= width || (k == d.len() && d.len() >= width),
            d@ == decimal(n as nat),
            s@ == start + Seq::new((k - d@.len()) as nat, |_i: int| '0'),
        decreases width - k,
    {
        push_char(s, '0');
        k += 1;
        assert(s@ =~= start + Seq::new((k - d@.len()) as nat, |_i: int| '0'));
    }
    let ghost before = s@;
    push_str(s, digits.as_str());
    if d.len() >= width {
        assert(Seq::new(0nat, |_i: int| '0') =~= Seq::<char>::empty());
        assert(s@ =~= start + decimal(n as nat));
    } else {
        assert(s@ =~= start + (Seq::new((width - d@.len()) as nat, |_i: int| '0') + decimal(n as nat)));
    }
}

} // verus!

verus! {

// ------------------------------------------------------------------------
// Integer parsing (the grammar of std's `from_str` for integers)

pub open spec fn is_digit(c: char) -> bool {
    '0' <= c && c <= '9'
}

pub open spec fn all_digits(s: Seq<char>) -> bool {
    forall|i: int| 0 <= i < s.len() ==> is_digit(#[trigger] s[i])
}

/// Value of a sequence of decimal digits.
pub open spec fn digits_value(s: Seq<char>) -> nat
    decreases s.len(),
{
    if s.len() == 0 {
        0
    } else {
        digits_value(s.drop_last()) * 10 + ((s.last() as int - '0' as int) as nat)
    }
}

/// An unsigned integer: an optional `+` and at least one digit.
pub open spec fn unsigned_value(s: Seq<char>) -> Option<nat> {
    let body = if s.len() > 0 && s[0] == '+' { s.skip(1) } else { s };
    if body.len() > 0 && all_digits(body) {
        Some(digits_value(body))
    } else {
        None
    }
}

/// A signed integer: an optional `+` or `-` and at least one digit.
pub open spec fn signed_value(s: Seq<char>) -> Option<int> {
    if s.len() > 0 && s[0] == '-' {
        let body = s.skip(1);
        if body.len() > 0 && all_digits(body) {
            Some(-(digits_value(body) as int))
        } else {
            None
        }
    } else {
        match unsigned_value(s) {
            Some(v) => Some(v as int),
            None => None,
        }
    }
}

/// `u64::from_str`.
pub open spec fn parse_u64_spec(s: Seq<char>) -> Option<u64> {
    match unsigned_value(s) {
        Some(v) => if v <= u64::MAX { Some(v as u64) } else { None },
        None => None,
    }
}

/// `i32::from_str`.
pub open spec fn parse_i32_spec(s: Seq<char>) -> Option<i32> {
    match signed_value(s) {
        Some(v) => if i32::MIN <= v <= i32::MAX { Some(v as i32) } else { None },
        None => None,
    }
}

proof fn lemma_digits_value_monotone(s: Seq<char>, k: int)
    requires
        0 <= k <= s.len(),
    ensures
        digits_value(s.take(k)) <= digits_value(s),
    decreases s.len() - k,
{
    if k < s.len() {
        lemma_digits_value_monotone(s, k + 1);
        assert(s.take(k + 1).drop_last() =~= s.take(k));
    } else {
        assert(s.take(k) =~= s);
    }
}

/// Whether `c` is an ASCII digit.
pub fn is_digit_exec(c: char) -> (r: bool)
    ensures
        r == is_digit(c),
{
    '0' <= c && c <= '9'
}

/// Value of the digits `cs[from..]`, or `None` if one is not a digit or the
/// value exceeds `u64::MAX`.
fn digits_value_exec(cs: &[char], from: usize) -> (r: Option<u64>)
    requires
        from <= cs@.len(),
    ensures
        r is Some <==> (all_digits(cs@.skip(from as int)) && digits_value(cs@.skip(from as int)) <= u64::MAX),
        r matches Some(v) ==> v == digits_value(cs@.skip(from as int)),
{
    let ghost body = cs@.skip(from as int);
    let mut v: u64 = 0;
    let mut i = from;
    while i < cs.len()
        invariant
            from <= i <= cs@.len(),
            body == cs@.skip(from as int),
            all_digits(body.take(i - from)),
            v == digits_value(body.take(i - from)),
        decreases cs.len() - i,
    {
        let c = cs[i];
        if !('0' <= c && c <= '9') {
            assert(body[i - from] == c);
            return None;
        }
        let d = (c as u32 - '0' as u32) as u64;
        assert(body.take(i + 1 - from).drop_last() =~= body.take(i - from));
        match v.checked_mul(10) {
            Some(t) => match t.checked_add(d) {
                Some(u) => {
                    v = u;
                },
                None => {
                    proof { lemma_digits_value_monotone(body, i + 1 - from); }
                    return None;
                },
            },
            None => {
                proof { lemma_digits_value_monotone(body, i + 1 - from); }
                return None;
            },
        }
        i += 1;
    }
    assert(body.take(i - from) =~= body);
    Some(v)
}

/// `u64::from_str`: an optional `+` followed by decimal digits.
pub fn parse_u64(s: &str) -> (r: Option<u64>)
    ensures
        r == parse_u64_spec(s@),
{
    let cs = chars_of(s);
    let from: usize = if cs.len() > 0 && cs[0] == '+' { 1 } else { 0 };
    assert(cs@.skip(0) =~= cs@);
    if from >= cs.len() {
        return None;
    }
    digits_value_exec(cs.as_slice(), from)
}

/// `usize::from_str`.
pub fn parse_usize(s: &str) -> (r: Option<usize>)
    ensures
        r matches Some(v) ==> unsigned_value(s@) == Some(v as nat),
        r is None ==> (unsigned_value(s@) is None || unsigned_value(s@).unwrap() > usize::MAX),
{
    match parse_u64(s) {
        Some(v) => {
            if v as u128 <= usize::MAX as u128 {
                Some(v as usize)
            } else {
                None
            }
        },
        None => None,
    }
}

/// `i32::from_str`: an optional sign followed by decimal digits.
pub fn parse_i32(s: &str) -> (r: Option<i32>)
    ensures
        r == parse_i32_spec(s@),
{
    let cs = chars_of(s);
    assert(cs@.skip(0) =~= cs@);
    if cs.len() > 0 && cs[0] == '-' {
        if cs.len() < 2 {
            return None;
        }
        match digits_value_exec(cs.as_slice(), 1) {
            Some(v) => {
                if v <= 2147483648 {
                    Some((-(v as i64)) as i32)
                } else {
                    None
                }
            },
            None => None,
        }
    } else {
        let from: usize = if cs.len() > 0 && cs[0] == '+' { 1 } else { 0 };
        if from >= cs.len() {
            return None;
        }
        match digits_value_exec(cs.as_slice(), from) {
            Some(v) => {
                if v <= 2147483647 {
                    Some(v as i32)
                } else {
                    None
                }
            },
            None => None,
        }
    }
}

} // verus!

verus! {

// ------------------------------------------------------------------------
// Lines (`str::lines`)

/// The views of a sequence of character vectors.
pub open spec fn char_views(v: Seq<Vec<char>>) -> Seq<Seq<char>> {
    v.map_values(|e: Vec<char>| e@)
}

/// `s` without one trailing `\r`.
pub open spec fn strip_cr(s: Seq<char>) -> Seq<char> {
    if s.len() > 0 && s.last() == '\r' { s.drop_last() } else { s }
}

/// The lines of `s`: split at `\n`, each without one trailing `\r`; a final
/// `\n` does not start another line, and the empty text has no line.
/// `cur` is the line read so far.
pub open spec fn lines_from(s: Seq<char>, cur: Seq<char>) -> Seq<Seq<char>>
    decreases s.len(),
{
    if s.len() == 0 {
        if cur.len() == 0 { Seq::empty() } else { seq![strip_cr(cur)] }
    } else if s[0] == '\n' {
        seq![strip_cr(cur)] + lines_from(s.skip(1), Seq::empty())
    } else {
        lines_from(s.skip(1), cur.push(s[0]))
    }
}

pub open spec fn lines(s: Seq<char>) -> Seq<Seq<char>> {
    lines_from(s, Seq::empty())
}

/// A vector holding the characters `cs[from..to]`.
pub fn chars_range(cs: &[char], from: usize, to: usize) -> (r: Vec<char>)
    requires
        from <= to <= cs@.len(),
    ensures
        r@ == cs@.subrange(from as int, to as int),
{
    let mut r: Vec<char> = Vec::new();
    let mut i = from;
    while i < to
        invariant
            from <= i <= to <= cs@.len(),
            r@ == cs@.subrange(from as int, i as int),
        decreases to - i,
    {
        r.push(cs[i]);
        i += 1;
        assert(r@ =~= cs@.subrange(from as int, i as int));
    }
    r
}

/// `str::lines`, as vectors of characters.
pub fn lines_exec(cs: &[char]) -> (r: Vec<Vec<char>>)
    ensures
        char_views(r@) == lines(cs@),
{
    let mut r: Vec<Vec<char>> = Vec::new();
    let mut start: usize = 0;
    let mut i: usize = 0;
    assert(cs@.skip(0) =~= cs@);
    assert(cs@.subrange(0, 0) =~= Seq::<char>::empty());
    assert(char_views(r@) =~= Seq::<Seq<char>>::empty());
    while i < cs.len()
        invariant
            start <= i <= cs@.len(),
            char_views(r@) + lines_from(cs@.skip(i as int), cs@.subrange(start as int, i as int)) == lines(cs@),
        decreases cs.len() - i,
    {
        let ghost s = cs@.skip(i as int);
        assert(s.skip(1) =~= cs@.skip(i + 1));
        if cs[i] == '\n' {
            let mut end = i;
            if end > start && cs[end - 1] == '\r' {
                end = end - 1;
            }
            let line = chars_range(cs, start, end);
            let ghost old_r = char_views(r@);
            assert(line@ == strip_cr(cs@.subrange(start as int, i as int)));
            r.push(line);
            assert(char_views(r@) =~= old_r.push(line@));
            assert(old_r + (seq![line@] + lines_from(cs@.skip(i + 1), Seq::empty()))
                =~= char_views(r@) + lines_from(cs@.skip(i + 1), Seq::empty()));
            start = i + 1;
            i += 1;
            assert(cs@.subrange(start as int, i as int) =~= Seq::<char>::empty());
        } else {
            assert(cs@.subrange(start as int, i as int).push(cs@[i as int]) =~= cs@.subrange(start as int, i + 1));
            i += 1;
        }
    }
    assert(cs@.skip(i as int) =~= Seq::<char>::empty());
    if i > start {
        let mut end = i;
        if cs[end - 1] == '\r' {
            end = end - 1;
        }
        let line = chars_range(cs, start, end);
        let ghost old_r = char_views(r@);
        assert(line@ == strip_cr(cs@.subrange(start as int, i as int)));
        r.push(line);
        assert(char_views(r@) =~= old_r + seq![line@]);
    } else {
        assert(cs@.subrange(start as int, i as int) =~= Seq::<char>::empty());
        assert(char_views(r@) + Seq::<Seq<char>>::empty() =~= char_views(r@));
    }
    r
}

// ------------------------------------------------------------------------
// Lexicographic order of character sequences (the order of `str`)

pub open spec fn lex_lt(a: Seq<char>, b: Seq<char>) -> bool
    decreases a.len(),
{
    if a.len() == 0 {
        b.len() > 0
    } else if b.len() == 0 {
        false
    } else if a[0] < b[0] {
        true
    } else if a[0] == b[0] {
        lex_lt(a.skip(1), b.skip(1))
    } else {
        false
    }
}

pub proof fn lemma_lex_irreflexive(a: Seq<char>)
    ensures
        !lex_lt(a, a),
    decreases a.len(),
{
    if a.len() > 0 {
        lemma_lex_irreflexive(a.skip(1));
    }
}

pub proof fn lemma_lex_transitive(a: Seq<char>, b: Seq<char>, c: Seq<char>)
    requires
        lex_lt(a, b),
        lex_lt(b, c),
    ensures
        lex_lt(a, c),
    decreases a.len(),
{
    if a.len() > 0 && b.len() > 0 && c.len() > 0 {
        if a[0] == b[0] && b[0] == c[0] {
            lemma_lex_transitive(a.skip(1), b.skip(1), c.skip(1));
        }
    }
}

pub proof fn lemma_lex_total(a: Seq<char>, b: Seq<char>)
    ensures
        a == b || lex_lt(a, b) || lex_lt(b, a),
    decreases a.len(),
{
    if a.len() > 0 && b.len() > 0 {
        if a[0] == b[0] {
            lemma_lex_total(a.skip(1), b.skip(1));
            if a.skip(1) == b.skip(1) {
                assert(a =~= seq![a[0]] + a.skip(1));
                assert(b =~= seq![b[0]] + b.skip(1));
            }
        } else {
            assert(a[0] < b[0] || b[0] < a[0]);
        }
    } else if a.len() == 0 && b.len() == 0 {
        assert(a =~= b);
    }
}

/// Whether `a` comes before `b` in the order of `str`.
pub fn lex_lt_exec(a: &[char], b: &[char]) -> (r: bool)
    ensures
        r == lex_lt(a@, b@),
{
    let mut i: usize = 0;
    assert(a@.skip(0) =~= a@);
    assert(b@.skip(0) =~= b@);
    loop
        invariant
            i <= a@.len(),
            i <= b@.len(),
            a@.skip(i as int).len() == a@.len() - i,
            lex_lt(a@.skip(i as int), b@.skip(i as int)) == lex_lt(a@, b@),
        decreases a.len() - i,
    {
        if i == a.len() {
            return i < b.len();
        }
        if i == b.len() {
            return false;
        }
        let (x, y) = (a[i], b[i]);
        if x < y {
            return true;
        }
        if x != y {
            return false;
        }
        assert(a@.skip(i as int).skip(1) =~= a@.skip(i + 1));
        assert(b@.skip(i as int).skip(1) =~= b@.skip(i + 1));
        i += 1;
    }
}

} // verus!

verus! {

/// Strictly increasing in the order of `str`.
pub open spec fn strictly_sorted(s: Seq<Seq<char>>) -> bool {
    forall|i: int, j: int| 0 <= i < j < s.len() ==> lex_lt(#[trigger] s[i], #[trigger] s[j])
}

/// `x` occurs at least twice in `s`.
pub open spec fn occurs_twice(s: Seq<Seq<char>>, x: Seq<char>) -> bool {
    exists|i: int, j: int| 0 <= i < j < s.len() && #[trigger] s[i] == x && #[trigger] s[j] == x
}

/// Inserts `x` into the strictly sorted `v`, unless it is already there.
pub fn insert_sorted(v: &mut Vec<Vec<char>>, x: Vec<char>)
    requires
        strictly_sorted(char_views(old(v)@)),
    ensures
        strictly_sorted(char_views(final(v)@)),
        forall|y: Seq<char>| #[trigger] char_views(final(v)@).contains(y)
            <==> (char_views(old(v)@).contains(y) || y == x@),
{
    let ghost vv = char_views(v@);
    let mut p: usize = 0;
    while p < v.len() && lex_lt_exec(v[p].as_slice(), x.as_slice())
        invariant
            p <= v@.len(),
            vv == char_views(v@),
            forall|k: int| 0 <= k < p ==> lex_lt(#[trigger] vv[k], x@),
        decreases v.len() - p,
    {
        p += 1;
    }
    if p < v.len() && crate::text::chars_eq(v[p].as_slice(), x.as_slice()) {
        assert(vv[p as int] == x@);
        assert(vv.contains(x@));
        return;
    }
    proof {
        if p < vv.len() {
            lemma_lex_total(vv[p as int], x@);
        }
    }
    v.insert(p, x);
    let ghost nv = char_views(v@);
    assert(nv =~= vv.insert(p as int, x@));
    assert forall|i: int, j: int| 0 <= i < j < nv.len() implies lex_lt(#[trigger] nv[i], #[trigger] nv[j]) by {
        if j < p {
        } else if j == p {
        } else if i < p {
            // nv[i] < x < nv[j] or nv[i] < vv[j-1]
            if i < p {
                lemma_lex_transitive(vv[i], x@, vv[p as int]);
                if j - 1 > p {
                    lemma_lex_transitive(vv[i], vv[p as int], vv[j - 1]);
                }
            }
        } else if i == p {
            if j - 1 > p {
                lemma_lex_transitive(x@, vv[p as int], vv[j - 1]);
            }
        } else {
        }
    }
    assert forall|y: Seq<char>| #[trigger] nv.contains(y) <==> (vv.contains(y) || y == x@) by {
        if nv.contains(y) {
            let k = choose|k: int| 0 <= k < nv.len() && nv[k] == y;
            if k < p {
                assert(vv[k] == y);
            } else if k > p {
                assert(vv[k - 1] == y);
            }
        }
        if vv.contains(y) {
            let k = choose|k: int| 0 <= k < vv.len() && vv[k] == y;
            if k < p {
                assert(nv[k] == y);
            } else {
                assert(nv[k + 1] == y);
            }
        }
        if y == x@ {
            assert(nv[p as int] == y);
        }
    }
}

/// Whether two character vectors are equal.
pub fn chars_eq(a: &[char], b: &[char]) -> (r: bool)
    ensures
        r == (a@ == b@),
{
    if a.len() != b.len() {
        return false;
    }
    let mut i: usize = 0;
    while i < a.len()
        invariant
            a@.len() == b@.len(),
            i <= a@.len(),
            forall|k: int| 0 <= k < i ==> a@[k] == b@[k],
        decreases a.len() - i,
    {
        if a[i] != b[i] {
            return false;
        }
        i += 1;
    }
    assert(a@ =~= b@);
    true
}

/// The strings that occur more than once in `names`, in sorted order.
pub fn find_duplicates(names: &Vec<String>) -> (r: Vec<String>)
    ensures
        strictly_sorted(views(r@)),
        forall|x: Seq<char>| #[trigger] views(r@).contains(x) <==> occurs_twice(views(names@), x),
{
    let ghost nv = views(names@);
    let mut cs: Vec<Vec<char>> = Vec::new();
    for i in 0..names.len()
        invariant
            nv == views(names@),
            cs@.len() == i,
            forall|k: int| 0 <= k < i ==> (#[trigger] cs@[k])@ == nv[k],
    {
        cs.push(chars_of(names[i].as_str()));
    }
    let mut sorted: Vec<Vec<char>> = Vec::new();
    for i in 0..names.len()
        invariant
            nv == views(names@),
            cs@.len() == names@.len(),
            forall|k: int| 0 <= k < cs@.len() ==> (#[trigger] cs@[k])@ == nv[k],
            strictly_sorted(char_views(sorted@)),
            forall|x: Seq<char>| #[trigger] char_views(sorted@).contains(x)
                <==> exists|a: int, b: int| 0 <= a < b < nv.len() && a < i && #[trigger] nv[a] == x && #[trigger] nv[b] == x,
    {
        let mut j = i + 1;
        let mut found = false;
        while j < names.len() && !found
            invariant
                i < j <= cs@.len(),
                cs@.len() == names@.len(),
                nv.len() == names@.len(),
                forall|k: int| 0 <= k < cs@.len() ==> (#[trigger] cs@[k])@ == nv[k],
                found ==> exists|b: int| i < b < nv.len() && nv[b] == nv[i as int],
                !found ==> forall|b: int| i < b < j ==> nv[b] != nv[i as int],
            decreases names.len() - j,
        {
            assert(cs@[i as int]@ == nv[i as int]);
            assert(cs@[j as int]@ == nv[j as int]);
            if chars_eq(cs[i].as_slice(), cs[j].as_slice()) {
                assert(nv[j as int] == nv[i as int]);
                found = true;
            } else {
                assert(nv[j as int] != nv[i as int]);
            }
            j += 1;
        }
        let ghost before = char_views(sorted@);
        if found {
            let x = chars_of(names[i].as_str());
            insert_sorted(&mut sorted, x);
        }
        assert forall|x: Seq<char>| #[trigger] char_views(sorted@).contains(x)
            <==> exists|a: int, b: int| 0 <= a < b < nv.len() && a < i + 1 && #[trigger] nv[a] == x && #[trigger] nv[b] == x by {
            if exists|a: int, b: int| 0 <= a < b < nv.len() && a < i + 1 && #[trigger] nv[a] == x && #[trigger] nv[b] == x {
                let (a, b) = choose|a: int, b: int| 0 <= a < b < nv.len() && a < i + 1 && #[trigger] nv[a] == x && #[trigger] nv[b] == x;
                if a < i {
                    assert(before.contains(x));
                } else {
                    assert(found);
                }
            }
            if found && x == nv[i as int] {
                let b = choose|b: int| i < b < nv.len() && nv[b] == nv[i as int];
                assert(nv[i as int] == x && nv[b] == x);
            }
        }
    }
    let mut r: Vec<String> = Vec::new();
    for k in 0..sorted.len()
        invariant
            views(r@) == char_views(sorted@).take(k as int),
            r@.len() == k,
    {
        r.push(string_from_chars(sorted[k].as_slice()));
        assert(views(r@) =~= char_views(sorted@).take(k + 1));
    }
    assert(char_views(sorted@).take(sorted@.len() as int) =~= char_views(sorted@));
    r
}

} // verus!

verus! {

// ------------------------------------------------------------------------
// Unicode white space (`char::is_whitespace`) and `str::trim`

/// A character with the Unicode property `White_Space`.
pub open spec fn is_ws(c: char) -> bool {
    let n = c as u32;
    ||| n == 0x20
    ||| (0x09 <= n && n <= 0x0d)
    ||| n == 0x85
    ||| n == 0xa0
    ||| n == 0x1680
    ||| (0x2000 <= n && n <= 0x200a)
    ||| n == 0x2028
    ||| n == 0x2029
    ||| n == 0x202f
    ||| n == 0x205f
    ||| n == 0x3000
}

/// `s` without leading white space.
pub open spec fn trim_start(s: Seq<char>) -> Seq<char>
    decreases s.len(),
{
    if s.len() > 0 && is_ws(s[0]) {
        trim_start(s.skip(1))
    } else {
        s
    }
}

/// `s` without trailing white space.
pub open spec fn trim_end(s: Seq<char>) -> Seq<char>
    decreases s.len(),
{
    if s.len() > 0 && is_ws(s.last()) {
        trim_end(s.drop_last())
    } else {
        s
    }
}

/// `s` without leading and trailing white space.
pub open spec fn trim(s: Seq<char>) -> Seq<char> {
    trim_end(trim_start(s))
}

/// Whether `c` is white space.
pub fn is_ws_exec(c: char) -> (r: bool)
    ensures
        r == is_ws(c),
{
    let n = c as u32;
    n == 0x20 || (0x09 <= n && n <= 0x0d) || n == 0x85 || n == 0xa0 || n == 0x1680
        || (0x2000 <= n && n <= 0x200a) || n == 0x2028 || n == 0x2029 || n == 0x202f || n == 0x205f
        || n == 0x3000
}

/// The characters of `cs` without trailing white space.
pub fn trim_end_chars(cs: &[char]) -> (r: Vec<char>)
    ensures
        r@ == trim_end(cs@),
{
    let mut b: usize = cs.len();
    assert(cs@.take(cs@.len() as int) =~= cs@);
    while b > 0 && is_ws_exec(cs[b - 1])
        invariant
            b <= cs@.len(),
            trim_end(cs@) == trim_end(cs@.take(b as int)),
        decreases b,
    {
        assert(cs@.take(b as int).drop_last() =~= cs@.take(b - 1));
        b -= 1;
    }
    assert(trim_end(cs@.take(b as int)) == cs@.take(b as int));
    let r = chars_range(cs, 0, b);
    assert(r@ =~= cs@.take(b as int));
    r
}

/// The characters of `cs` without leading and trailing white space.
pub fn trim_chars(cs: &[char]) -> (r: Vec<char>)
    ensures
        r@ == trim(cs@),
{
    let mut a: usize = 0;
    assert(cs@.skip(0) =~= cs@);
    while a < cs.len() && is_ws_exec(cs[a])
        invariant
            a <= cs@.len(),
            trim_start(cs@) == trim_start(cs@.skip(a as int)),
        decreases cs.len() - a,
    {
        assert(cs@.skip(a as int).skip(1) =~= cs@.skip(a + 1));
        a += 1;
    }
    let ghost t = cs@.skip(a as int);
    assert(trim_start(cs@) == t);
    let mut b: usize = cs.len();
    assert(t.take(t.len() as int) =~= t);
    while b > a && is_ws_exec(cs[b - 1])
        invariant
            a <= b <= cs@.len(),
            t == cs@.skip(a as int),
            trim_end(t) == trim_end(t.take(b - a)),
        decreases b,
    {
        assert(t.take(b - a).drop_last() =~= t.take(b - 1 - a));
        b -= 1;
    }
    assert(trim_end(t.take(b - a)) == t.take(b - a));
    let r = chars_range(cs, a, b);
    assert(r@ =~= t.take(b - a));
    r
}

} // verus!

verus! {

// ------------------------------------------------------------------------
// Splitting at a character (`str::split` with a `char`)

/// The pieces of `s` between the occurrences of `sep` (one more piece than
/// there are separators). `cur` is the piece read so far.
pub open spec fn split_from(s: Seq<char>, sep: char, cur: Seq<char>) -> Seq<Seq<char>>
    decreases s.len(),
{
    if s.len() == 0 {
        seq![cur]
    } else if s[0] == sep {
        seq![cur] + split_from(s.skip(1), sep, Seq::empty())
    } else {
        split_from(s.skip(1), sep, cur.push(s[0]))
    }
}

pub open spec fn split_char(s: Seq<char>, sep: char) -> Seq<Seq<char>> {
    split_from(s, sep, Seq::empty())
}

/// `str::split` at a character, as vectors of characters.
pub fn split_chars(cs: &[char], sep: char) -> (r: Vec<Vec<char>>)
    ensures
        char_views(r@) == split_char(cs@, sep),
        r@.len() >= 1,
{
    let mut r: Vec<Vec<char>> = Vec::new();
    let mut cur: Vec<char> = Vec::new();
    let mut i: usize = 0;
    assert(cs@.skip(0) =~= cs@);
    assert(char_views(r@) =~= Seq::<Seq<char>>::empty());
    while i < cs.len()
        invariant
            i <= cs@.len(),
            char_views(r@) + split_from(cs@.skip(i as int), sep, cur@) == split_char(cs@, sep),
        decreases cs.len() - i,
    {
        let ghost rest = cs@.skip(i as int);
        assert(rest.skip(1) =~= cs@.skip(i + 1));
        if cs[i] == sep {
            let ghost old_r = char_views(r@);
            let ghost piece = cur@;
            r.push(cur);
            assert(char_views(r@) =~= old_r.push(piece));
            assert(old_r + (seq![piece] + split_from(cs@.skip(i + 1), sep, Seq::empty()))
                =~= char_views(r@) + split_from(cs@.skip(i + 1), sep, Seq::empty()));
            cur = Vec::new();
            assert(cur@ =~= Seq::<char>::empty());
        } else {
            cur.push(cs[i]);
        }
        i += 1;
    }
    assert(cs@.skip(i as int) =~= Seq::<char>::empty());
    let ghost old_r = char_views(r@);
    let ghost piece = cur@;
    r.push(cur);
    assert(char_views(r@) =~= old_r + seq![piece]);
    r
}

} // verus!

verus! {

// ------------------------------------------------------------------------
// Words (`str::split_whitespace`)

/// The words of `s`: the maximal runs of characters that are not white
/// space. `cur` is the word read so far.
pub open spec fn words_from(s: Seq<char>, cur: Seq<char>) -> Seq<Seq<char>>
    decreases s.len(),
{
    if s.len() == 0 {
        if cur.len() > 0 { seq![cur] } else { Seq::empty() }
    } else if is_ws(s[0]) {
        (if cur.len() > 0 { seq![cur] } else { Seq::empty() }) + words_from(s.skip(1), Seq::empty())
    } else {
        words_from(s.skip(1), cur.push(s[0]))
    }
}

pub open spec fn words(s: Seq<char>) -> Seq<Seq<char>> {
    words_from(s, Seq::empty())
}

/// `str::split_whitespace`, as vectors of characters.
pub fn words_exec(cs: &[char]) -> (r: Vec<Vec<char>>)
    ensures
        char_views(r@) == words(cs@),
{
    let mut r: Vec<Vec<char>> = Vec::new();
    let mut cur: Vec<char> = Vec::new();
    let mut i: usize = 0;
    assert(cs@.skip(0) =~= cs@);
    assert(char_views(r@) =~= Seq::<Seq<char>>::empty());
    while i < cs.len()
        invariant
            i <= cs@.len(),
            char_views(r@) + words_from(cs@.skip(i as int), cur@) == words(cs@),
        decreases cs.len() - i,
    {
        let ghost rest = cs@.skip(i as int);
        assert(rest.skip(1) =~= cs@.skip(i + 1));
        if is_ws_exec(cs[i]) {
            if cur.len() > 0 {
                let ghost old_r = char_views(r@);
                let ghost piece = cur@;
                r.push(cur);
                assert(char_views(r@) =~= old_r.push(piece));
                assert(old_r + (seq![piece] + words_from(cs@.skip(i + 1), Seq::empty()))
                    =~= char_views(r@) + words_from(cs@.skip(i + 1), Seq::empty()));
                cur = Vec::new();
            } else {
                assert(Seq::<Seq<char>>::empty() + words_from(cs@.skip(i + 1), Seq::empty())
                    =~= words_from(cs@.skip(i + 1), Seq::empty()));
                cur = Vec::new();
            }
            assert(cur@ =~= Seq::<char>::empty());
        } else {
            cur.push(cs[i]);
        }
        i += 1;
    }
    assert(cs@.skip(i as int) =~= Seq::<char>::empty());
    if cur.len() > 0 {
        let ghost old_r = char_views(r@);
        let ghost piece = cur@;
        r.push(cur);
        assert(char_views(r@) =~= old_r + seq![piece]);
    } else {
        assert(char_views(r@) + Seq::<Seq<char>>::empty() =~= char_views(r@));
    }
    r
}

} // verus!
