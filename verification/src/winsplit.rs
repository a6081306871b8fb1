//! Splitting a command line the way Windows programs do (the rules of the
//! Microsoft C runtime, `CommandLineToArgvW`).
use vstd::prelude::*;
use crate::text::{chars_of, string_from_chars, views};

verus! {

pub open spec fn is_blank(c: char) -> bool {
    c == ' ' || c == '\t'
}

/// `s` without leading spaces and tabs.
pub open spec fn trim_blanks(s: Seq<char>) -> Seq<char>
    decreases s.len(),
{
    if s.len() > 0 && is_blank(s[0]) {
        trim_blanks(s.skip(1))
    } else {
        s
    }
}

/// Number of backslashes at the start of `s`.
pub open spec fn leading_backslashes(s: Seq<char>) -> nat
    decreases s.len(),
{
    if s.len() > 0 && s[0] == '\\' {
        1 + leading_backslashes(s.skip(1))
    } else {
        0
    }
}

/// `n` backslashes.
pub open spec fn backslashes(n: nat) -> Seq<char> {
    Seq::new(n, |_i: int| '\\')
}

/// The program name (the first argument): quotes toggle, nothing is
/// escaped. Gives the name and the text after it.
pub open spec fn win_program(s: Seq<char>, prog: Seq<char>, in_quotes: bool) -> (Seq<char>, Seq<char>)
    decreases s.len(),
{
    if s.len() == 0 {
        (prog, s)
    } else if !in_quotes && is_blank(s[0]) {
        (prog, s)
    } else if s[0] == '"' {
        win_program(s.skip(1), prog, !in_quotes)
    } else {
        win_program(s.skip(1), prog.push(s[0]), in_quotes)
    }
}

pub proof fn lemma_leading_backslashes(s: Seq<char>)
    ensures
        leading_backslashes(s) <= s.len(),
        forall|i: int| 0 <= i < leading_backslashes(s) ==> s[i] == '\\',
        leading_backslashes(s) < s.len() ==> s[leading_backslashes(s) as int] != '\\',
    decreases s.len(),
{
    if s.len() > 0 && s[0] == '\\' {
        lemma_leading_backslashes(s.skip(1));
        assert forall|i: int| 0 <= i < leading_backslashes(s) implies s[i] == '\\' by {
            if i > 0 {
                assert(s.skip(1)[i - 1] == s[i]);
            }
        }
    }
}

/// The remaining arguments: separated by blanks outside quotes; `2n`
/// backslashes before `"` give `n` backslashes and toggle quoting, `2n+1`
/// give `n` backslashes and a literal `"`; other backslashes are literal;
/// inside quotes `""` is a literal `"`.
pub open spec fn win_args(s: Seq<char>, cur: Seq<char>, in_arg: bool, in_quotes: bool) -> Seq<Seq<char>>
    decreases s.len(),
{
    if s.len() == 0 {
        if in_arg { seq![cur] } else { Seq::empty() }
    } else if is_blank(s[0]) && !in_quotes {
        if in_arg {
            seq![cur] + win_args(s.skip(1), Seq::empty(), false, in_quotes)
        } else {
            win_args(s.skip(1), cur, false, in_quotes)
        }
    } else if s[0] == '\\' {
        let b = leading_backslashes(s);
        proof { lemma_leading_backslashes(s); }
        let rest = s.skip(b as int);
        if rest.len() > 0 && rest[0] == '"' {
            if b % 2 == 1 {
                win_args(rest.skip(1), cur + backslashes(b / 2) + seq!['"'], true, in_quotes)
            } else {
                win_args(rest, cur + backslashes(b / 2), true, in_quotes)
            }
        } else {
            win_args(rest, cur + backslashes(b), true, in_quotes)
        }
    } else if s[0] == '"' {
        if in_quotes && s.len() >= 2 && s[1] == '"' {
            win_args(s.skip(2), cur.push('"'), true, in_quotes)
        } else {
            win_args(s.skip(1), cur, true, !in_quotes)
        }
    } else {
        win_args(s.skip(1), cur.push(s[0]), true, in_quotes)
    }
}

/// The arguments of a Windows command line.
pub open spec fn windows_args(line: Seq<char>) -> Seq<Seq<char>> {
    let t = trim_blanks(line);
    if t.len() == 0 {
        Seq::empty()
    } else {
        let (prog, rest) = win_program(t, Seq::empty(), false);
        seq![prog] + win_args(rest, Seq::empty(), false, false)
    }
}

/// Split a command line into arguments with the rules of the Microsoft C
/// runtime (`CommandLineToArgvW`), which Windows programs use to parse their
/// own command line:
/// - arguments are separated by spaces or tabs, unless inside double quotes;
/// - `2n` backslashes followed by `"` give `n` backslashes and toggle quoting,
///   `2n+1` backslashes followed by `"` give `n` backslashes and a literal `"`;
/// - backslashes that aren't followed by `"` are literal (`C:\tools\app.exe`);
/// - inside quotes, `""` is a literal `"`;
/// - in the program name (the first argument) backslashes are always literal.
pub fn split_windows_command_line(command_line: &str) -> (r: Vec<String>)
    ensures
        views(r@) == windows_args(command_line@),
{
    let cs = chars_of(command_line);
    let n = cs.len();
    let mut i: usize = 0;
    assert(cs@.skip(0) =~= cs@);
    while i < n && (cs[i] == ' ' || cs[i] == '\t')
        invariant
            n == cs@.len(),
            i <= n,
            trim_blanks(cs@.skip(i as int)) == trim_blanks(command_line@),
            cs@ == command_line@,
        decreases n - i,
    {
        assert(cs@.skip(i as int).skip(1) =~= cs@.skip(i + 1));
        i += 1;
    }
    assert(trim_blanks(cs@.skip(i as int)) == cs@.skip(i as int));
    let mut args: Vec<String> = Vec::new();
    if i == n {
        assert(cs@.skip(i as int) =~= Seq::<char>::empty());
        assert(views(args@) =~= Seq::<Seq<char>>::empty());
        return args;
    }
    // The program name: quotes toggle, nothing is escaped.
    let mut program: Vec<char> = Vec::new();
    let mut in_quotes = false;
    while i < n && (in_quotes || !(cs[i] == ' ' || cs[i] == '\t'))
        invariant
            n == cs@.len(),
            i <= n,
            win_program(cs@.skip(i as int), program@, in_quotes) == win_program(trim_blanks(command_line@), Seq::empty(), false),
        decreases n - i,
    {
        assert(cs@.skip(i as int).skip(1) =~= cs@.skip(i + 1));
        if cs[i] == '"' {
            in_quotes = !in_quotes;
        } else {
            program.push(cs[i]);
        }
        i += 1;
    }
    assert(win_program(cs@.skip(i as int), program@, in_quotes) == (program@, cs@.skip(i as int)));
    args.push(string_from_chars(program.as_slice()));
    let ghost first = program@;
    let mut current: Vec<char> = Vec::new();
    let mut in_arg = false;
    in_quotes = false;
    while i < n
        invariant
            n == cs@.len(),
            i <= n,
            args@.len() >= 1,
            views(args@) + win_args(cs@.skip(i as int), current@, in_arg, in_quotes) == windows_args(command_line@),
        decreases n - i,
    {
        let ghost s = cs@.skip(i as int);
        let c = cs[i];
        if (c == ' ' || c == '\t') && !in_quotes {
            assert(s.skip(1) =~= cs@.skip(i + 1));
            if in_arg {
                let ghost old_args = views(args@);
                args.push(string_from_chars(current.as_slice()));
                assert(views(args@) =~= old_args.push(current@));
                assert(old_args + (seq![current@] + win_args(s.skip(1), Seq::empty(), false, in_quotes))
                    =~= views(args@) + win_args(s.skip(1), Seq::empty(), false, in_quotes));
                current = Vec::new();
                in_arg = false;
            }
            i += 1;
        } else if c == '\\' {
            proof { lemma_leading_backslashes(s); }
            let mut b: usize = 0;
            while i + b < n && cs[i + b] == '\\'
                invariant
                    n == cs@.len(),
                    i < n,
                    s == cs@.skip(i as int),
                    i + b <= n,
                    b <= leading_backslashes(s),
                    forall|k: int| 0 <= k < b ==> s[k] == '\\',
                decreases n - i - b,
            {
                proof { lemma_backslash_count_step(s, b as nat); }
                b += 1;
            }
            proof { lemma_backslash_count_done(s, b as nat); }
            assert(s.skip(b as int) =~= cs@.skip((i + b) as int));
            let ghost old_cur = current@;
            let after = i + b;
            if after < n && cs[after] == '"' {
                let half = b / 2;
                let mut k: usize = 0;
                while k < half
                    invariant
                        k <= half,
                        current@ == old_cur + backslashes(k as nat),
                    decreases half - k,
                {
                    current.push('\\');
                    k += 1;
                    assert(current@ =~= old_cur + backslashes(k as nat));
                }
                if b % 2 == 1 {
                    current.push('"');
                    assert(s.skip(b as int).skip(1) =~= cs@.skip((after + 1) as int));
                    assert(current@ =~= old_cur + backslashes((b / 2) as nat) + seq!['"']);
                    i = after + 1;
                } else {
                    i = after;
                }
                assert(win_args(s, old_cur, in_arg, in_quotes) == win_args(cs@.skip(i as int), current@, true, in_quotes));
            } else {
                let mut k: usize = 0;
                while k < b
                    invariant
                        k <= b,
                        current@ == old_cur + backslashes(k as nat),
                    decreases b - k,
                {
                    current.push('\\');
                    k += 1;
                    assert(current@ =~= old_cur + backslashes(k as nat));
                }
                i = after;
                assert(win_args(s, old_cur, in_arg, in_quotes) == win_args(cs@.skip(i as int), current@, true, in_quotes));
            }
            in_arg = true;
        } else if c == '"' {
            if in_quotes && i + 1 < n && cs[i + 1] == '"' {
                assert(s.skip(2) =~= cs@.skip(i + 2));
                current.push('"');
                i += 2;
            } else {
                assert(s.skip(1) =~= cs@.skip(i + 1));
                in_quotes = !in_quotes;
                i += 1;
            }
            in_arg = true;
        } else {
            assert(s.skip(1) =~= cs@.skip(i + 1));
            current.push(c);
            in_arg = true;
            i += 1;
        }
    }
    assert(cs@.skip(i as int) =~= Seq::<char>::empty());
    if in_arg {
        let ghost old_args = views(args@);
        args.push(string_from_chars(current.as_slice()));
        assert(views(args@) =~= old_args + seq![current@]);
    } else {
        assert(views(args@) + Seq::<Seq<char>>::empty() =~= views(args@));
    }
    args
}

proof fn lemma_backslash_count_step(s: Seq<char>, b: nat)
    requires
        b < s.len(),
        s[b as int] == '\\',
        forall|k: int| 0 <= k < b ==> s[k] == '\\',
    ensures
        b + 1 <= leading_backslashes(s),
        forall|k: int| 0 <= k < b + 1 ==> s[k] == '\\',
    decreases b,
{
    if b > 0 {
        lemma_backslash_count_step(s.skip(1), (b - 1) as nat);
    }
}

proof fn lemma_backslash_count_done(s: Seq<char>, b: nat)
    requires
        b <= s.len(),
        b <= leading_backslashes(s),
        forall|k: int| 0 <= k < b ==> s[k] == '\\',
        b == s.len() || s[b as int] != '\\',
    ensures
        b == leading_backslashes(s),
{
    lemma_leading_backslashes(s);
}

} // verus!
