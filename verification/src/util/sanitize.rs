//! Helpers for displaying untrusted text (e.g. command names read from an
//! imported JSON file) without letting it control the terminal.
use vstd::prelude::*;
use crate::text::{chars_of, push_char, push_str};

verus! {

/// A control character: C0 (`U+0000`–`U+001F`), DEL and C1
/// (`U+007F`–`U+009F`).
pub open spec fn is_control(c: char) -> bool {
    (c as u32) <= 0x1f || (0x7f <= (c as u32) && (c as u32) <= 0x9f)
}

/// The lower-case hexadecimal digit for `d < 16`.
pub open spec fn hex_digit(d: nat) -> char {
    if d < 10 {
        crate::text::digit_char(d)
    } else if d == 10 { 'a' }
    else if d == 11 { 'b' }
    else if d == 12 { 'c' }
    else if d == 13 { 'd' }
    else if d == 14 { 'e' }
    else { 'f' }
}

/// Lower-case hexadecimal notation of `n`, without leading zeros.
pub open spec fn hex(n: nat) -> Seq<char>
    decreases n,
{
    if n < 16 {
        seq![hex_digit(n)]
    } else {
        hex(n / 16).push(hex_digit(n % 16))
    }
}

/// The escape of one character: `\u{..}` for a control character, the
/// character itself otherwise.
pub open spec fn escape_char(c: char) -> Seq<char> {
    if is_control(c) {
        "\\u{"@ + hex((c as u32) as nat) + "}"@
    } else {
        seq![c]
    }
}

/// `s` with every control character escaped.
pub open spec fn escaped(s: Seq<char>) -> Seq<char>
    decreases s.len(),
{
    if s.len() == 0 {
        Seq::empty()
    } else {
        escaped(s.drop_last()) + escape_char(s.last())
    }
}

/// Whether `c` is a control character.
pub fn is_control_exec(c: char) -> (r: bool)
    ensures
        r == is_control(c),
{
    let n = c as u32;
    n <= 0x1f || (0x7f <= n && n <= 0x9f)
}

fn hex_digit_exec(d: u32) -> (c: char)
    requires
        d < 16,
    ensures
        c == hex_digit(d as nat),
{
    match d {
        0 => '0', 1 => '1', 2 => '2', 3 => '3', 4 => '4', 5 => '5', 6 => '6', 7 => '7',
        8 => '8', 9 => '9', 10 => 'a', 11 => 'b', 12 => 'c', 13 => 'd', 14 => 'e', _ => 'f',
    }
}

/// Appends the hexadecimal notation of `n`.
pub fn push_hex(s: &mut String, n: u32)
    ensures
        final(s)@ == old(s)@ + hex(n as nat),
    decreases n,
{
    if n < 16 {
        push_char(s, hex_digit_exec(n));
    } else {
        push_hex(s, n / 16);
        push_char(s, hex_digit_exec(n % 16));
    }
}

proof fn lemma_escaped_plain(s: Seq<char>)
    requires
        forall|i: int| 0 <= i < s.len() ==> !is_control(#[trigger] s[i]),
    ensures
        escaped(s) == s,
    decreases s.len(),
{
    if s.len() > 0 {
        lemma_escaped_plain(s.drop_last());
        assert(escaped(s.drop_last()) + seq![s.last()] =~= s);
    }
}

/// Replace control characters (C0, DEL and C1, which includes ESC) by a visible
/// `\u{..}` escape, so that the text cannot inject ANSI/OSC sequences into the
/// terminal or into exported reports.
///
/// Strings without control characters are returned unchanged (borrowed).
pub fn escape_control_chars(s: &str) -> (r: std::borrow::Cow<'_, str>)
    ensures
        r@ == escaped(s@),
        (forall|i: int| 0 <= i < s@.len() ==> !is_control(#[trigger] s@[i])) <==> r is Borrowed,
{
    let cs = chars_of(s);
    let mut any = false;
    let mut i: usize = 0;
    while i < cs.len() && !any
        invariant
            cs@ == s@,
            i <= cs@.len(),
            !any ==> forall|k: int| 0 <= k < i ==> !is_control(#[trigger] s@[k]),
            any ==> exists|k: int| 0 <= k < s@.len() && is_control(#[trigger] s@[k]),
        decreases cs.len() - i + (if any { 0int } else { 1int }),
    {
        if is_control_exec(cs[i]) {
            any = true;
        }
        i += 1;
    }
    if !any {
        proof { lemma_escaped_plain(s@); }
        return std::borrow::Cow::Borrowed(s);
    }
    let mut out = String::new();
    for j in 0..cs.len()
        invariant
            cs@ == s@,
            out@ == escaped(s@.take(j as int)),
    {
        let c = cs[j];
        let ghost before = out@;
        if is_control_exec(c) {
            proof {
                reveal_strlit("\\u{");
                reveal_strlit("}");
            }
            push_str(&mut out, "\\u{");
            push_hex(&mut out, c as u32);
            push_str(&mut out, "}");
        } else {
            push_char(&mut out, c);
        }
        proof {
            let t = s@.take(j + 1);
            assert(t.drop_last() =~= s@.take(j as int));
            assert(t.last() == c);
            assert(out@ =~= before + escape_char(c));
        }
    }
    assert(s@.take(cs@.len() as int) =~= s@);
    std::borrow::Cow::Owned(out)
}

} // verus!

verus! {

proof fn lemma_hex_plain(n: nat)
    ensures
        forall|i: int| 0 <= i < hex(n).len() ==> !is_control(#[trigger] hex(n)[i]),
    decreases n,
{
    if n >= 16 {
        lemma_hex_plain(n / 16);
        assert forall|i: int| 0 <= i < hex(n).len() implies !is_control(#[trigger] hex(n)[i]) by {
            if i < hex(n / 16).len() {
                assert(hex(n)[i] == hex(n / 16)[i]);
            }
        }
    }
}

/// Escaped text holds no control character: it cannot drive the terminal.
pub proof fn lemma_escaped_has_no_control_chars(s: Seq<char>)
    ensures
        forall|i: int| 0 <= i < escaped(s).len() ==> !is_control(#[trigger] escaped(s)[i]),
    decreases s.len(),
{
    if s.len() > 0 {
        let prev = s.drop_last();
        lemma_escaped_has_no_control_chars(prev);
        let c = s.last();
        if is_control(c) {
            lemma_hex_plain((c as u32) as nat);
            reveal_strlit("\\u{");
            reveal_strlit("}");
        }
        let e = escape_char(c);
        assert forall|i: int| 0 <= i < escaped(s).len() implies !is_control(#[trigger] escaped(s)[i]) by {
            if i < escaped(prev).len() {
                assert(escaped(s)[i] == escaped(prev)[i]);
            } else {
                let j = i - escaped(prev).len();
                assert(escaped(s)[i] == e[j]);
                if is_control(c) {
                    let h = hex((c as u32) as nat);
                    if j >= 3 && j < 3 + h.len() {
                        assert(e[j] == h[j - 3]);
                    }
                }
            }
        }
    }
}

} // verus!
